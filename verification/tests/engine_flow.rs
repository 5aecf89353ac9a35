use queue_sim::display::{queue_bar_fill, Display};
use queue_sim::engine::{
    apply_command, get_statistics, init_engine, make_servers, process_simulation_step,
    SimCommand, INTERACTIVE_FLOOR,
};
use queue_sim::queue::{ConfigError, Task};

#[test]
fn init_engine_validates_configuration() {
    assert_eq!(init_engine(0, 1_000, 300).err(), Some(ConfigError::ZeroArrivalRate));
    assert_eq!(init_engine(2_000, 0, 300).err(), Some(ConfigError::ZeroProcessingTime));
    let engine = init_engine(2_000, 1_000, 300).unwrap();
    assert_eq!(engine.generator.next_id, 1);
    assert_eq!(engine.generator.arrival_rate, 2_000);
    assert!(engine.completed_tasks.is_empty());
}

#[test]
fn make_servers_numbers_them_in_order() {
    let servers = make_servers(4);
    assert_eq!(servers.len(), 4);
    for (i, s) in servers.iter().enumerate() {
        assert_eq!(s.id, i);
        assert!(!s.is_busy);
        assert_eq!(s.total_processed, 0);
        assert_eq!(s.queue_length(), 0);
    }
}

#[test]
fn one_tick_dispatches_and_later_ticks_complete() {
    let mut engine = init_engine(2_000, 200, 0).unwrap();
    let mut servers = make_servers(2);

    let r = process_simulation_step(&mut engine, &mut servers, 3, 0);
    assert_eq!(r.new_tasks_count, 3);
    // All three tasks were dispatched; the stepping pass moved one per
    // server into service, so one task is still queued.
    assert_eq!(r.completed_tasks_count, 0);
    let pending: usize = servers.iter().map(|s| s.queue_length()).sum();
    assert_eq!(pending, 1);
    assert!(servers[0].is_busy && servers[1].is_busy);

    // Duration is exactly 200 ms (zero variance): both in-service tasks
    // finish at t=200 and the queued one enters service.
    let r2 = process_simulation_step(&mut engine, &mut servers, 0, 200);
    assert_eq!(r2.completed_tasks_count, 2);
    assert_eq!(engine.completed_tasks.len(), 2);
    // Completions are recorded in server order: server 0 finished task 1,
    // server 1 finished task 2.
    assert_eq!(engine.completed_tasks[0].id, 1);
    assert_eq!(engine.completed_tasks[1].id, 2);

    let r3 = process_simulation_step(&mut engine, &mut servers, 0, 400);
    assert_eq!(r3.completed_tasks_count, 1);
    assert_eq!(engine.completed_tasks.len(), 3);
    assert_eq!(engine.completed_tasks[2].id, 3);
    for t in engine.completed_tasks.iter() {
        assert!(t.completion_time >= t.start_time && t.start_time >= t.arrival_time);
    }

    let done: u64 = servers.iter().map(|s| s.total_processed).sum();
    assert_eq!(done, 3);
}

#[test]
fn arrival_enters_idle_server_within_its_own_tick() {
    let mut engine = init_engine(2_000, 1_000, 0).unwrap();
    let mut servers = make_servers(1);
    // Dispatch happens before the stepping pass, so the single idle
    // server picks the arrival up in the same tick.
    process_simulation_step(&mut engine, &mut servers, 1, 0);
    assert!(servers[0].is_busy);
    assert_eq!(servers[0].queue_length(), 0);
    let started = servers[0].current_task.as_ref().unwrap();
    assert_eq!(started.id, 1);
    assert_eq!(started.start_time, 0);
}

#[test]
fn arrivals_spread_across_least_loaded_servers() {
    let mut engine = init_engine(2_000, 10_000, 0).unwrap();
    let mut servers = make_servers(2);
    // Five arrivals into two idle servers: alternating least-loaded
    // dispatch gives server 0 three tasks and server 1 two; the stepping
    // pass then moves one of each into service.
    process_simulation_step(&mut engine, &mut servers, 5, 0);
    assert!(servers[0].is_busy && servers[1].is_busy);
    assert_eq!(servers[0].queue_length(), 2);
    assert_eq!(servers[1].queue_length(), 1);
    assert_eq!(servers[0].current_task.as_ref().unwrap().id, 1);
    assert_eq!(servers[1].current_task.as_ref().unwrap().id, 2);
}

#[test]
fn completion_counters_only_grow_across_ticks() {
    let mut engine = init_engine(2_000, 300, 0).unwrap();
    let mut servers = make_servers(3);
    let mut last: Vec<u64> = vec![0; 3];
    for tick in 0..20u64 {
        let arrivals = if tick % 4 == 0 { 2 } else { 0 };
        process_simulation_step(&mut engine, &mut servers, arrivals, tick * 100);
        for (i, s) in servers.iter().enumerate() {
            assert!(s.total_processed >= last[i]);
            last[i] = s.total_processed;
        }
    }
}

#[test]
fn history_is_trimmed_past_the_cap() {
    let mut engine = init_engine(2_000, 1_000, 300).unwrap();
    for id in 0..1_001u64 {
        engine.completed_tasks.push(Task {
            id,
            arrival_time: 0,
            processing_time: 100,
            start_time: 0,
            completion_time: 100,
        });
    }
    engine.trim_completed_history();
    assert_eq!(engine.completed_tasks.len(), 501);
    // The most recent contiguous suffix is retained.
    assert_eq!(engine.completed_tasks[0].id, 500);
    assert_eq!(engine.completed_tasks[500].id, 1_000);

    // Below the cap nothing is dropped.
    engine.trim_completed_history();
    assert_eq!(engine.completed_tasks.len(), 501);
}

#[test]
fn statistics_flow_through_the_engine() {
    let mut engine = init_engine(2_000, 200, 0).unwrap();
    let mut servers = make_servers(2);
    process_simulation_step(&mut engine, &mut servers, 2, 0);
    process_simulation_step(&mut engine, &mut servers, 0, 200);

    let stats = get_statistics(&engine, &servers, 200);
    assert_eq!(stats.completed_tasks, 2);
    assert_eq!(stats.total_queue_length, 0);
    // 2 completions over 0.2 s: 10 tasks/s.
    assert_eq!(stats.current_throughput_milli, 10_000);
    // Both tasks started the moment they arrived.
    assert_eq!(stats.average_wait_time_ms, 0);
}

#[test]
fn update_arrival_rate_changes_only_the_rate() {
    let mut engine = init_engine(2_000, 1_000, 300).unwrap();
    engine.update_arrival_rate(5_500);
    assert_eq!(engine.generator.arrival_rate, 5_500);
    assert_eq!(engine.generator.processing_time, 1_000);
    assert_eq!(engine.generator.next_id, 1);
}

#[test]
fn commands_floor_rates_and_durations() {
    let mut engine = init_engine(2_000, 1_000, 300).unwrap();
    let mut servers = make_servers(2);

    let quit = apply_command(&mut engine, &mut servers, SimCommand::SetArrivalRate(5));
    assert!(!quit);
    assert_eq!(engine.generator.arrival_rate, INTERACTIVE_FLOOR);

    apply_command(&mut engine, &mut servers, SimCommand::SetArrivalRate(4_000));
    assert_eq!(engine.generator.arrival_rate, 4_000);

    apply_command(&mut engine, &mut servers, SimCommand::SetProcessingTime(30));
    assert_eq!(engine.generator.processing_time, INTERACTIVE_FLOOR);

    apply_command(&mut engine, &mut servers, SimCommand::SetProcessingTime(2_500));
    assert_eq!(engine.generator.processing_time, 2_500);
}

#[test]
fn set_server_count_discards_in_flight_work() {
    let mut engine = init_engine(2_000, 200, 0).unwrap();
    let mut servers = make_servers(2);
    process_simulation_step(&mut engine, &mut servers, 3, 0);

    let quit = apply_command(&mut engine, &mut servers, SimCommand::SetServerCount(5));
    assert!(!quit);
    assert_eq!(servers.len(), 5);
    for (i, s) in servers.iter().enumerate() {
        assert_eq!(s.id, i);
        assert!(!s.is_busy);
        assert_eq!(s.queue_length(), 0);
        assert_eq!(s.total_processed, 0);
    }
}

#[test]
fn quit_command_changes_nothing() {
    let mut engine = init_engine(2_000, 1_000, 300).unwrap();
    let mut servers = make_servers(1);
    let quit = apply_command(&mut engine, &mut servers, SimCommand::Quit);
    assert!(quit);
    assert_eq!(servers.len(), 1);
    assert_eq!(engine.generator.arrival_rate, 2_000);
}

#[test]
fn queue_bars_saturate_at_their_width() {
    let _display = Display::new();
    assert_eq!(queue_bar_fill(0), 0);
    assert_eq!(queue_bar_fill(3), 3);
    assert_eq!(queue_bar_fill(10), 10);
    assert_eq!(queue_bar_fill(15), 10);
}
