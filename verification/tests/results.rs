//! Result merging and derived statistics.

use rewrk::results::WorkerResult;

fn result_with(
    total_times: Vec<u64>,
    request_times: Vec<u64>,
    buffer_sizes: Vec<u64>,
    errors: Vec<(&str, u64)>,
) -> WorkerResult {
    let mut r = WorkerResult::default();
    r.total_times = total_times;
    r.request_times = request_times;
    r.buffer_sizes = buffer_sizes;
    for (msg, n) in errors {
        for _ in 0..n {
            r.error_map.add_error(msg.to_string());
        }
    }
    r
}

fn sorted(mut v: Vec<u64>) -> Vec<u64> {
    v.sort();
    v
}

#[test]
fn merge_identity_on_concrete_values() {
    let x = result_with(
        vec![5_000],
        vec![10, 20],
        vec![512],
        vec![("connection closed", 2)],
    );
    let merged = WorkerResult::default().combine(x);
    assert_eq!(merged.total_times, vec![5_000]);
    assert_eq!(merged.request_times, vec![10, 20]);
    assert_eq!(merged.buffer_sizes, vec![512]);
    assert_eq!(merged.error_map.count_of(&"connection closed".to_string()), 2);

    let y = result_with(
        vec![5_000],
        vec![10, 20],
        vec![512],
        vec![("connection closed", 2)],
    );
    let merged = y.combine(WorkerResult::default());
    assert_eq!(merged.total_times, vec![5_000]);
    assert_eq!(merged.request_times, vec![10, 20]);
    assert_eq!(merged.buffer_sizes, vec![512]);
    assert_eq!(merged.error_map.count_of(&"connection closed".to_string()), 2);
}

#[test]
fn merge_commutative_on_concrete_values() {
    let mk_a = || result_with(vec![100], vec![1, 2], vec![10], vec![("a", 1), ("b", 2)]);
    let mk_b = || result_with(vec![200], vec![3], vec![20, 30], vec![("b", 1), ("c", 4)]);
    let ab = mk_a().combine(mk_b());
    let ba = mk_b().combine(mk_a());
    assert_eq!(sorted(ab.total_times.clone()), sorted(ba.total_times.clone()));
    assert_eq!(sorted(ab.request_times.clone()), sorted(ba.request_times.clone()));
    assert_eq!(sorted(ab.buffer_sizes.clone()), sorted(ba.buffer_sizes.clone()));
    for key in ["a", "b", "c", "missing"] {
        let key = key.to_string();
        assert_eq!(ab.error_map.count_of(&key), ba.error_map.count_of(&key));
    }
    assert_eq!(ab.error_map.count_of(&"b".to_string()), 3);
}

#[test]
fn merge_associative_on_concrete_values() {
    let mk_a = || result_with(vec![100], vec![1], vec![10], vec![("a", 1)]);
    let mk_b = || result_with(vec![200], vec![2], vec![20], vec![("a", 2), ("b", 1)]);
    let mk_c = || result_with(vec![300], vec![3], vec![30], vec![("b", 5)]);
    let left = mk_a().combine(mk_b()).combine(mk_c());
    let right = mk_a().combine(mk_b().combine(mk_c()));
    assert_eq!(left.total_times, right.total_times);
    assert_eq!(left.request_times, right.request_times);
    assert_eq!(left.buffer_sizes, right.buffer_sizes);
    for key in ["a", "b"] {
        let key = key.to_string();
        assert_eq!(left.error_map.count_of(&key), right.error_map.count_of(&key));
    }
}

#[test]
fn empty_result_reports_no_requests_and_divides_by_nothing() {
    let empty = WorkerResult::default();
    assert_eq!(empty.total_requests(), 0);
    assert_eq!(empty.total_transfer(), 0);
    assert!(empty.avg_total_time().is_none());
    assert!(empty.avg_request_latency().is_none());
    assert_eq!(empty.min_request_latency(), 0);
    assert_eq!(empty.max_request_latency(), 0);
    assert!(empty.variance().is_none());
    assert!(empty.std_deviation_request_latency().is_none());
    assert!(empty.avg_request_per_sec().is_none());
    assert!(empty.avg_transfer().is_none());
    assert!(empty.summarize().is_none());
}

#[test]
fn statistics_of_three_known_latencies() {
    // 10ms, 20ms, 30ms in nanoseconds, over one worker that ran one second.
    let r = result_with(
        vec![1_000_000_000],
        vec![10_000_000, 20_000_000, 30_000_000],
        vec![4096],
        vec![],
    );
    assert_eq!(r.total_requests(), 3);
    assert_eq!(r.avg_request_latency(), Some(20_000_000)); // mean = 20ms
    assert_eq!(r.min_request_latency(), 10_000_000); // min = 10ms
    assert_eq!(r.max_request_latency(), 30_000_000); // max = 30ms
    // population variance = 66.67 ms^2 = 66_666_666_666_666 ns^2 (floor)
    assert_eq!(r.variance(), Some(66_666_666_666_666));
    // stddev ~= 8.165 ms: the integer square root in nanoseconds
    assert_eq!(r.std_deviation_request_latency(), Some(8_164_965));
    assert_eq!(r.avg_total_time(), Some(1_000_000_000));
    assert_eq!(r.avg_request_per_sec(), Some(3));
    assert_eq!(r.avg_transfer(), Some(4096));
    let st = r.summarize().expect("requests completed");
    assert_eq!(st.total_requests, 3);
    assert_eq!(st.total_transfer, 4096);
    assert_eq!(st.avg_request_latency, 20_000_000);
    assert_eq!(st.min_request_latency, 10_000_000);
    assert_eq!(st.max_request_latency, 30_000_000);
    assert_eq!(st.variance, Some(66_666_666_666_666));
    assert_eq!(st.std_deviation, Some(8_164_965));
    assert_eq!(st.requests_per_sec, Some(3));
    assert_eq!(st.transfer_per_sec, Some(4096));
}

#[test]
fn error_tally_deduplicates_messages() {
    let mut r = WorkerResult::default();
    r.error_map.add_error("connection closed".to_string());
    r.error_map.add_error("connection closed".to_string());
    r.error_map.add_error("timed out".to_string());
    assert_eq!(r.error_map.entries.len(), 2);
    assert_eq!(r.error_map.count_of(&"connection closed".to_string()), 2);
    assert_eq!(r.error_map.count_of(&"timed out".to_string()), 1);
    assert_eq!(r.error_map.count_of(&"never seen".to_string()), 0);
}

#[test]
fn isqrt_on_known_values() {
    assert_eq!(rewrk::results::isqrt_u128(0), 0);
    assert_eq!(rewrk::results::isqrt_u128(1), 1);
    assert_eq!(rewrk::results::isqrt_u128(2), 1);
    assert_eq!(rewrk::results::isqrt_u128(144), 12);
    assert_eq!(rewrk::results::isqrt_u128(145), 12);
    assert_eq!(rewrk::results::isqrt_u128(u64::MAX as u128), u32::MAX as u64);
    assert_eq!(rewrk::results::isqrt_u128(u128::MAX), u64::MAX);
}

#[test]
fn error_counts_saturate_instead_of_overflowing() {
    let mut a = WorkerResult::default();
    a.error_map.entries.push(("connection closed".to_string(), u64::MAX - 1));
    let mut b = WorkerResult::default();
    b.error_map.add_error("connection closed".to_string());
    b.error_map.add_error("connection closed".to_string());
    let merged = a.combine(b);
    assert_eq!(merged.error_map.count_of(&"connection closed".to_string()), u64::MAX);
}

#[test]
fn mean_is_floor_of_exact_mean() {
    let r = result_with(vec![3, 4], vec![1, 2], vec![], vec![]);
    assert_eq!(r.avg_total_time(), Some(3)); // (3 + 4) / 2 rounded down
    assert_eq!(r.avg_request_latency(), Some(1)); // (1 + 2) / 2 rounded down
}
