use queue_sim::queue::{
    ConfigError, ServerState, Task, TaskGenerator, MIN_PROCESSING_TIME_MS,
};
use queue_sim::statistics::{calculate_statistics, StatisticsSnapshot};

fn fresh_task(id: u64, arrival_time: u64, processing_time: u64) -> Task {
    Task { id, arrival_time, processing_time, start_time: 0, completion_time: 0 }
}

fn completed(start_time: u64, arrival_time: u64) -> Task {
    Task { id: 0, arrival_time, processing_time: 100, start_time, completion_time: start_time + 100 }
}

#[test]
fn zero_arrival_rate_is_rejected_at_configuration() {
    let r = TaskGenerator::new(0, 1_000, 300);
    assert_eq!(r.err(), Some(ConfigError::ZeroArrivalRate));
}

#[test]
fn zero_processing_time_is_rejected_at_configuration() {
    let r = TaskGenerator::new(2_000, 0, 300);
    assert_eq!(r.err(), Some(ConfigError::ZeroProcessingTime));
}

#[test]
fn expected_arrivals_zero_only_for_zero_delta() {
    let g = TaskGenerator::new(2_000, 1_000, 300).unwrap();
    assert_eq!(g.expected_arrivals(0), 0);
    assert_eq!(g.expected_arrivals(100), 200_000);
    assert_eq!(g.expected_arrivals(1_000), 2_000_000);
}

#[test]
fn zero_count_generates_no_tasks() {
    let mut g = TaskGenerator::new(2_000, 1_000, 300).unwrap();
    let tasks = g.generate_tasks(0, 1_234);
    assert!(tasks.is_empty());
    // The id counter did not move.
    let next = g.generate_tasks(1, 1_234);
    assert_eq!(next[0].id, 1);
}

#[test]
fn generated_ids_increase_from_one() {
    let mut g = TaskGenerator::new(2_000, 1_000, 300).unwrap();
    let first = g.generate_tasks(3, 500);
    let second = g.generate_tasks(2, 700);
    let ids: Vec<u64> = first.iter().chain(second.iter()).map(|t| t.id).collect();
    assert_eq!(ids, vec![1, 2, 3, 4, 5]);
    for t in first.iter() {
        assert_eq!(t.arrival_time, 500);
        assert_eq!(t.start_time, 0);
        assert_eq!(t.completion_time, 0);
    }
    for t in second.iter() {
        assert_eq!(t.arrival_time, 700);
    }
}

#[test]
fn generated_durations_stay_in_the_jitter_interval() {
    let mut g = TaskGenerator::new(2_000, 500, 200).unwrap();
    let tasks = g.generate_tasks(64, 0);
    for t in tasks.iter() {
        // mean 500 +/- 200, half-open above: [300, 699].
        assert!(t.processing_time >= 300, "duration {} below the interval", t.processing_time);
        assert!(t.processing_time <= 699, "duration {} above the interval", t.processing_time);
    }
}

#[test]
fn generated_durations_are_floored() {
    let mut g = TaskGenerator::new(2_000, 120, 300).unwrap();
    let tasks = g.generate_tasks(64, 0);
    for t in tasks.iter() {
        assert!(t.processing_time >= MIN_PROCESSING_TIME_MS);
        // mean 120 + 300 (exclusive above): never 420 or more.
        assert!(t.processing_time <= 419);
    }
}

#[test]
fn zero_variance_gives_the_exact_mean() {
    let mut g = TaskGenerator::new(2_000, 800, 0).unwrap();
    let tasks = g.generate_tasks(5, 0);
    for t in tasks.iter() {
        assert_eq!(t.processing_time, 800);
    }
    let mut tiny = TaskGenerator::new(2_000, 30, 0).unwrap();
    let floored = tiny.generate_tasks(1, 0);
    assert_eq!(floored[0].processing_time, MIN_PROCESSING_TIME_MS);
}

#[test]
fn snapshot_default_is_all_zero() {
    let s = StatisticsSnapshot::default();
    assert_eq!(s.current_throughput_milli, 0);
    assert_eq!(s.average_wait_time_ms, 0);
    assert_eq!(s.server_utilization_percent, 0);
    assert_eq!(s.total_queue_length, 0);
    assert_eq!(s.completed_tasks, 0);
}

#[test]
fn empty_window_gives_zero_rates() {
    let servers = vec![ServerState::new(0)];
    let window: Vec<Task> = Vec::new();
    let stats = calculate_statistics(&servers, &window, 1_000);
    assert_eq!(stats.current_throughput_milli, 0);
    assert_eq!(stats.average_wait_time_ms, 0);
}

#[test]
fn zero_time_window_gives_zero_throughput() {
    let servers = vec![ServerState::new(0)];
    let window = vec![completed(100, 0)];
    let stats = calculate_statistics(&servers, &window, 0);
    assert_eq!(stats.current_throughput_milli, 0);
}

#[test]
fn statistics_formulas_are_exact() {
    let mut servers = vec![ServerState::new(0), ServerState::new(1), ServerState::new(2)];
    servers[0].add_task(fresh_task(1, 0, 100));
    servers[0].add_task(fresh_task(2, 0, 100));
    servers[2].add_task(fresh_task(3, 0, 100));
    // Make server 1 busy (its queue stays empty).
    servers[1].add_task(fresh_task(4, 0, 10_000));
    servers[1].process_step(0);
    servers[0].total_processed = 4;
    servers[2].total_processed = 3;

    // Waits of 100 and 300 ms, over a 1 s window.
    let window = vec![completed(150, 50), completed(400, 100)];
    let stats = calculate_statistics(&servers, &window, 1_000);

    assert_eq!(stats.total_queue_length, 3);
    assert_eq!(stats.completed_tasks, 7);
    // One busy server out of three: 33 percent, floored.
    assert_eq!(stats.server_utilization_percent, 33);
    // 2 completions / 1 s = 2.0 tasks/s.
    assert_eq!(stats.current_throughput_milli, 2_000);
    // Mean of 100 and 300.
    assert_eq!(stats.average_wait_time_ms, 200);
}

#[test]
fn utilization_of_no_servers_is_zero() {
    let servers: Vec<ServerState> = Vec::new();
    let stats = calculate_statistics(&servers, &Vec::new(), 1_000);
    assert_eq!(stats.server_utilization_percent, 0);
    assert_eq!(stats.total_queue_length, 0);
    assert_eq!(stats.completed_tasks, 0);
}

#[test]
fn utilization_never_exceeds_one_hundred() {
    let mut servers = vec![ServerState::new(0), ServerState::new(1)];
    for s in servers.iter_mut() {
        s.add_task(fresh_task(1, 0, 10_000));
        s.process_step(0);
    }
    let stats = calculate_statistics(&servers, &Vec::new(), 1_000);
    assert_eq!(stats.server_utilization_percent, 100);
}
