use load_test::stats::{
    first_failure_indices, fold_results, outcome_of_response, outcome_of_transport_error,
    url_stats_of, RequestResult, TestStats,
};

fn success_outcome(user_id: usize, url: &str, ms: u64) -> RequestResult {
    outcome_of_response(user_id, url, 200, ms)
}

fn failure_outcome(user_id: usize, url: &str) -> RequestResult {
    outcome_of_transport_error(user_id, url, "connection refused".to_string(), 3)
}

#[test]
fn fold_scenario() {
    let mut stats = TestStats::new();
    stats.add_result(&success_outcome(1, "http://a", 10));
    stats.add_result(&success_outcome(2, "http://a", 20));
    stats.add_result(&failure_outcome(3, "http://a"));
    stats.calculate_final();
    assert_eq!(stats.total_requests, 3);
    assert_eq!(stats.successful, 2);
    assert_eq!(stats.failed, 1);
    assert_eq!(stats.min_duration_ms, 10);
    assert_eq!(stats.max_duration_ms, 20);
    assert_eq!(stats.avg_duration_ms, 15);
    assert_eq!(stats.status_codes.get(&200), Some(&2));
}

#[test]
fn finalize_idempotent() {
    let mut stats = TestStats::new();
    stats.add_result(&success_outcome(1, "http://a", 7));
    stats.add_result(&success_outcome(2, "http://a", 11));
    stats.calculate_final();
    let snapshot = (
        stats.total_requests,
        stats.successful,
        stats.failed,
        stats.min_duration_ms,
        stats.max_duration_ms,
        stats.total_duration_ms,
        stats.avg_duration_ms,
        stats.status_codes.len(),
    );
    stats.calculate_final();
    let again = (
        stats.total_requests,
        stats.successful,
        stats.failed,
        stats.min_duration_ms,
        stats.max_duration_ms,
        stats.total_duration_ms,
        stats.avg_duration_ms,
        stats.status_codes.len(),
    );
    assert_eq!(snapshot, again);
}

#[test]
fn burst_of_five_successes() {
    let mut stats = TestStats::new();
    let mut results: Vec<RequestResult> = Vec::new();
    for (i, ms) in [1u64, 2, 3, 2, 1].iter().enumerate() {
        results.push(success_outcome(i + 1, "http://a", *ms));
    }
    fold_results(&mut stats, &results);
    stats.calculate_final();
    assert_eq!(stats.total_requests, 5);
    assert_eq!(stats.successful, 5);
    assert_eq!(stats.failed, 0);
    assert!(stats.min_duration_ms <= stats.max_duration_ms);
    assert!(stats.min_duration_ms <= stats.avg_duration_ms);
    assert!(stats.avg_duration_ms <= stats.max_duration_ms);
}

#[test]
fn finalize_without_success_keeps_zero_average() {
    let mut stats = TestStats::new();
    stats.add_result(&failure_outcome(1, "http://a"));
    stats.calculate_final();
    assert_eq!(stats.total_requests, 1);
    assert_eq!(stats.successful, 0);
    assert_eq!(stats.failed, 1);
    assert_eq!(stats.avg_duration_ms, 0);
}

#[test]
fn outcome_of_2xx_response() {
    let r = outcome_of_response(4, "http://a", 204, 9);
    assert!(r.success);
    assert_eq!(r.status_code, Some(204));
    assert_eq!(r.error, None);
    assert_eq!(r.user_id, 4);
    assert_eq!(r.duration_ms, 9);
    assert_eq!(r.url, "http://a");
}

#[test]
fn outcome_of_error_response() {
    let r = outcome_of_response(1, "http://a", 404, 5);
    assert!(!r.success);
    assert_eq!(r.status_code, Some(404));
    assert_eq!(r.error.as_deref(), Some("HTTP 404"));
}

#[test]
fn outcome_of_transport_failure() {
    let r = outcome_of_transport_error(2, "http://a", "timeout".to_string(), 30000);
    assert!(!r.success);
    assert_eq!(r.status_code, None);
    assert_eq!(r.error.as_deref(), Some("timeout"));
}

#[test]
fn per_url_breakdown() {
    let results = vec![
        success_outcome(1, "http://a", 10),
        failure_outcome(2, "http://b"),
        success_outcome(3, "http://a", 30),
        success_outcome(4, "http://b", 8),
    ];
    let by_url = url_stats_of(&results);
    assert_eq!(by_url.len(), 2);
    let a = by_url.iter().find(|u| u.url == "http://a").unwrap();
    assert_eq!(a.total, 2);
    assert_eq!(a.successful, 2);
    assert_eq!(a.total_duration_ms, 40);
    let b = by_url.iter().find(|u| u.url == "http://b").unwrap();
    assert_eq!(b.total, 2);
    assert_eq!(b.successful, 1);
    assert_eq!(b.total_duration_ms, 8);
}

#[test]
fn failure_sample_takes_first_k() {
    let results = vec![
        success_outcome(1, "http://a", 1),
        failure_outcome(2, "http://a"),
        failure_outcome(3, "http://a"),
        failure_outcome(4, "http://a"),
    ];
    let sample = first_failure_indices(&results, 2);
    assert_eq!(sample, vec![1, 2]);
    let all = first_failure_indices(&results, 5);
    assert_eq!(all, vec![1, 2, 3]);
}
