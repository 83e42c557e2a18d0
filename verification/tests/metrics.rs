use nyrun::metrics::{
    metric_info, new_registered, record_cache_hit, record_cache_miss, serve_metrics, Metric, METRICS_PORT,
};
use std::collections::HashSet;

#[test]
fn metrics_have_names_of_their_own() {
    let all = new_registered();
    assert_eq!(all.len(), 14);
    let names: HashSet<&str> = all.iter().map(|m| m.name.as_str()).collect();
    assert_eq!(names.len(), 14);
    assert_eq!(all[0].name, "nyrun_http_requests");
    assert_eq!(all[13].help, "Total OCI image pull failures");
    for m in &all {
        assert_eq!(&metric_info(m.metric), m);
    }
    assert_eq!(metric_info(Metric::ProcessMemory).name, "nyrun_process_memory_bytes");
    assert_eq!(METRICS_PORT, 9090);
}

#[test]
fn looks_into_the_cache_are_counted() {
    assert_eq!(record_cache_hit().result, "hit");
    assert_eq!(record_cache_miss().result, "miss");
}

#[test]
fn answers_of_the_metrics_server() {
    assert_eq!(
        serve_metrics(&Some("é 1\n".to_string())),
        "HTTP/1.1 200 OK\r\nContent-Type: application/openmetrics-text; version=1.0.0; charset=utf-8\r\nContent-Length: 5\r\n\r\né 1\n"
    );
    assert_eq!(serve_metrics(&None), "HTTP/1.1 500 Internal Server Error\r\nContent-Length: 0\r\n\r\n");
}
