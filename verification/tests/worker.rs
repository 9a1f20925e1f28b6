//! The worker state machine, driven by simulated connections.

use std::time::Instant;

use rewrk::worker::{Worker, WorkerEvent, WorkerPhase};
use rewrk::results::WorkerResult;

#[test]
fn failed_initial_connect_yields_entirely_empty_result() {
    let mut w = Worker::new();
    assert_eq!(w.phase, WorkerPhase::Connecting);
    w.step(WorkerEvent::ConnectFailed);
    assert_eq!(w.phase, WorkerPhase::Terminated);
    let r = w.finalize(123_456_789);
    assert!(r.total_times.is_empty()); // no total-time entry either
    assert!(r.request_times.is_empty());
    assert!(r.buffer_sizes.is_empty());
    assert!(r.error_map.entries.is_empty());
}

#[test]
fn deadline_interrupting_a_request_is_not_counted() {
    // Exactly three requests complete; the deadline interrupts the fourth.
    let mut w = Worker::new();
    w.step(WorkerEvent::ConnectSucceeded);
    for lat in [5_000_000u64, 6_000_000, 7_000_000] {
        w.step(WorkerEvent::RequestSucceeded { latency: lat, bytes: 10 });
    }
    w.step(WorkerEvent::DeadlineExceeded);
    let r = w.finalize(200_000_000);
    assert_eq!(r.request_times.len(), 3); // never 4
    assert_eq!(r.request_times, vec![5_000_000, 6_000_000, 7_000_000]);
    assert_eq!(r.total_times, vec![200_000_000]);
    assert_eq!(r.buffer_sizes, vec![30]);
}

#[test]
fn reconnect_fidelity_every_kth_request_fails() {
    // A simulated connection fails deterministically on every 4th attempt;
    // every reconnect succeeds before the deadline.
    let k = 4;
    let attempts = 20;
    let mut w = Worker::new();
    w.step(WorkerEvent::ConnectSucceeded);
    let mut failures = 0u64;
    let mut successes = 0u64;
    for attempt in 1..=attempts {
        if attempt % k == 0 {
            w.step(WorkerEvent::RequestFailed { message: "connection closed".to_string() });
            failures += 1;
            assert_eq!(w.phase, WorkerPhase::Reconnecting);
            w.step(WorkerEvent::ReconnectSucceeded);
        } else {
            w.step(WorkerEvent::RequestSucceeded { latency: 1_000_000, bytes: 10 });
            successes += 1;
        }
        // The worker keeps progressing as long as reconnects succeed.
        assert_eq!(w.phase, WorkerPhase::Serving);
    }
    w.step(WorkerEvent::DeadlineExceeded);
    let r = w.finalize(1_000_000_000);
    assert_eq!(r.request_times.len() as u64, successes);
    assert_eq!(r.error_map.count_of(&"connection closed".to_string()), failures);
    assert_eq!(failures, 5);
    assert_eq!(successes, 15);
    // One byte-count entry per established connection: 1 initial + 5 reconnects.
    assert_eq!(r.buffer_sizes.len(), 6);
    assert_eq!(r.buffer_sizes.iter().sum::<u64>(), successes * 10);
}

#[test]
fn reconnect_timeout_terminates_the_worker() {
    let mut w = Worker::new();
    w.step(WorkerEvent::ConnectSucceeded);
    w.step(WorkerEvent::RequestSucceeded { latency: 2_000_000, bytes: 64 });
    w.step(WorkerEvent::RequestFailed { message: "broken pipe".to_string() });
    w.step(WorkerEvent::ReconnectTimedOut);
    assert_eq!(w.phase, WorkerPhase::Terminated);
    let r = w.finalize(50_000_000);
    assert_eq!(r.request_times, vec![2_000_000]);
    assert_eq!(r.total_times, vec![50_000_000]);
    assert_eq!(r.buffer_sizes, vec![64]);
    assert_eq!(r.error_map.count_of(&"broken pipe".to_string()), 1);
}

#[test]
fn bytes_attach_to_the_connection_that_received_them() {
    let mut w = Worker::new();
    w.step(WorkerEvent::ConnectSucceeded);
    w.step(WorkerEvent::RequestSucceeded { latency: 1, bytes: 100 });
    w.step(WorkerEvent::RequestFailed { message: "connection closed".to_string() });
    w.step(WorkerEvent::ReconnectSucceeded);
    w.step(WorkerEvent::RequestSucceeded { latency: 1, bytes: 7 });
    w.step(WorkerEvent::DeadlineExceeded);
    let r = w.finalize(10);
    // The superseded connection keeps its 100 bytes; the new one starts at 0.
    assert_eq!(r.buffer_sizes, vec![100, 7]);
}

#[test]
fn apply_events_matches_single_steps() {
    let events = vec![
        WorkerEvent::ConnectSucceeded,
        WorkerEvent::RequestSucceeded { latency: 3, bytes: 1 },
        WorkerEvent::RequestFailed { message: "x".to_string() },
        WorkerEvent::ReconnectSucceeded,
        WorkerEvent::RequestSucceeded { latency: 4, bytes: 2 },
        WorkerEvent::DeadlineExceeded,
    ];
    let mut a = Worker::new();
    a.apply_events(events.clone());
    let mut b = Worker::new();
    for e in events {
        b.step(e);
    }
    assert_eq!(a.phase, b.phase);
    assert_eq!(a.request_times, b.request_times);
    assert_eq!(a.buffer_sizes, b.buffer_sizes);
    assert_eq!(a.current_bytes, b.current_bytes);
}

#[test]
fn two_connections_for_200ms_against_a_fixed_10_byte_body() {
    // A simulated target answers every request with a fixed 10-byte body; two
    // workers serve it until a 200ms deadline fires.
    let round = std::time::Duration::from_millis(200);
    let start = Instant::now();
    let mut workers = vec![Worker::new(), Worker::new()];
    for w in workers.iter_mut() {
        w.step(WorkerEvent::ConnectSucceeded);
    }
    loop {
        if start.elapsed() >= round {
            break;
        }
        for w in workers.iter_mut() {
            let req_start = Instant::now();
            // The simulated server responds immediately with 10 bytes.
            let latency = req_start.elapsed().as_nanos() as u64;
            w.step(WorkerEvent::RequestSucceeded { latency, bytes: 10 });
        }
    }
    let mut merged = WorkerResult::default();
    for mut w in workers {
        w.step(WorkerEvent::DeadlineExceeded);
        let total = start.elapsed().as_nanos() as u64;
        merged = merged.combine(w.finalize(total));
    }
    let total_requests = merged.total_requests();
    assert!(total_requests > 0);
    assert_eq!(merged.total_transfer(), 10 * total_requests as u128);
    let st = merged.summarize().expect("requests completed");
    assert_eq!(st.total_requests, total_requests);
}
