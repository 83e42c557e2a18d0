//! The metrics of the daemon: their names, their labels and the answer of the
//! metrics server.

use vstd::prelude::*;
use vstd::string::*;
use vstd::utf8::encode_utf8;
use crate::number::{decimal, number_text};
use crate::text::cat4;

verus! {

/// The port of the metrics server where none is given.
pub const METRICS_PORT: u16 = 9090;

/// What a proxied request is counted under.
#[derive(Debug, PartialEq, Eq, Hash)]
pub struct RequestLabels {
    pub method: String,
    pub status: u16,
    pub host: String,
}

/// What is counted per process.
#[derive(Debug, PartialEq, Eq, Hash)]
pub struct ProcessLabels {
    pub name: String,
}

/// What is counted per host.
#[derive(Debug, PartialEq, Eq, Hash)]
pub struct HostLabels {
    pub host: String,
}

/// What a look into the cache is counted under: `hit` or `miss`.
#[derive(Debug, PartialEq, Eq, Hash)]
pub struct CacheLabels {
    pub result: String,
}

/// The labels of a look into the cache that found an answer.
pub fn record_cache_hit() -> (r: CacheLabels)
    ensures
        r.result@ == "hit"@,
{
    CacheLabels { result: "hit".to_string() }
}

/// The labels of a look into the cache that found none.
pub fn record_cache_miss() -> (r: CacheLabels)
    ensures
        r.result@ == "miss"@,
{
    CacheLabels { result: "miss".to_string() }
}

/// A metric.
#[derive(Clone, Copy, Debug, PartialEq, Eq, Structural)]
pub enum Metric {
    HttpRequests,
    HttpRequestDuration,
    ActiveConnections,
    CacheOperations,
    ManagedProcesses,
    ProcessRestarts,
    ProcessCpuUsage,
    ProcessMemory,
    NetworkReceived,
    NetworkSent,
    ResponseSize,
    UpstreamErrors,
    OciPulls,
    OciPullErrors,
}

/// How a metric is registered.
#[derive(Debug, PartialEq, Eq)]
pub struct MetricInfo {
    pub metric: Metric,
    pub name: String,
    pub help: String,
}

/// The contents of a `MetricInfo`.
#[verifier::ext_equal]
pub struct MetricInfoView {
    pub metric: Metric,
    pub name: Seq<char>,
    pub help: Seq<char>,
}

impl View for MetricInfo {
    type V = MetricInfoView;

    open spec fn view(&self) -> MetricInfoView {
        MetricInfoView { metric: self.metric, name: self.name@, help: self.help@ }
    }
}

/// The name of a metric.
pub open spec fn name_of_metric(m: Metric) -> Seq<char> {
    match m {
        Metric::HttpRequests => "nyrun_http_requests"@,
        Metric::HttpRequestDuration => "nyrun_http_request_duration_seconds"@,
        Metric::ActiveConnections => "nyrun_active_connections"@,
        Metric::CacheOperations => "nyrun_cache_operations"@,
        Metric::ManagedProcesses => "nyrun_managed_processes"@,
        Metric::ProcessRestarts => "nyrun_process_restarts"@,
        Metric::ProcessCpuUsage => "nyrun_process_cpu_usage_percent"@,
        Metric::ProcessMemory => "nyrun_process_memory_bytes"@,
        Metric::NetworkReceived => "nyrun_network_received_bytes"@,
        Metric::NetworkSent => "nyrun_network_sent_bytes"@,
        Metric::ResponseSize => "nyrun_response_size_bytes"@,
        Metric::UpstreamErrors => "nyrun_upstream_errors"@,
        Metric::OciPulls => "nyrun_oci_pulls"@,
        Metric::OciPullErrors => "nyrun_oci_pull_errors"@,
    }
}

/// What a metric is explained as.
pub open spec fn help_of_metric(m: Metric) -> Seq<char> {
    match m {
        Metric::HttpRequests => "Total HTTP requests proxied"@,
        Metric::HttpRequestDuration => "HTTP request latency in seconds"@,
        Metric::ActiveConnections => "Currently active proxy connections"@,
        Metric::CacheOperations => "Cache hit/miss counts"@,
        Metric::ManagedProcesses => "Number of managed processes"@,
        Metric::ProcessRestarts => "Total process restarts"@,
        Metric::ProcessCpuUsage => "CPU usage per process (percentage, 0-100 per core)"@,
        Metric::ProcessMemory => "Resident memory per process in bytes"@,
        Metric::NetworkReceived => "Total bytes received from clients"@,
        Metric::NetworkSent => "Total bytes sent to clients"@,
        Metric::ResponseSize => "Response body size distribution in bytes"@,
        Metric::UpstreamErrors => "Total upstream connection errors"@,
        Metric::OciPulls => "Total OCI image pulls"@,
        Metric::OciPullErrors => "Total OCI image pull failures"@,
    }
}

/// How a metric is registered.
pub open spec fn info_of(m: Metric) -> MetricInfoView {
    MetricInfoView { metric: m, name: name_of_metric(m), help: help_of_metric(m) }
}

/// All metrics, in the order in which they are registered.
pub open spec fn all_metrics() -> Seq<Metric> {
    seq![
        Metric::HttpRequests,
        Metric::HttpRequestDuration,
        Metric::ActiveConnections,
        Metric::CacheOperations,
        Metric::ManagedProcesses,
        Metric::ProcessRestarts,
        Metric::ProcessCpuUsage,
        Metric::ProcessMemory,
        Metric::NetworkReceived,
        Metric::NetworkSent,
        Metric::ResponseSize,
        Metric::UpstreamErrors,
        Metric::OciPulls,
        Metric::OciPullErrors,
    ]
}

/// How a metric is registered.
pub fn metric_info(m: Metric) -> (r: MetricInfo)
    ensures
        r@ == info_of(m),
{
    let (name, help) = match m {
        Metric::HttpRequests => ("nyrun_http_requests", "Total HTTP requests proxied"),
        Metric::HttpRequestDuration => (
            "nyrun_http_request_duration_seconds",
            "HTTP request latency in seconds",
        ),
        Metric::ActiveConnections => (
            "nyrun_active_connections",
            "Currently active proxy connections",
        ),
        Metric::CacheOperations => ("nyrun_cache_operations", "Cache hit/miss counts"),
        Metric::ManagedProcesses => ("nyrun_managed_processes", "Number of managed processes"),
        Metric::ProcessRestarts => ("nyrun_process_restarts", "Total process restarts"),
        Metric::ProcessCpuUsage => (
            "nyrun_process_cpu_usage_percent",
            "CPU usage per process (percentage, 0-100 per core)",
        ),
        Metric::ProcessMemory => (
            "nyrun_process_memory_bytes",
            "Resident memory per process in bytes",
        ),
        Metric::NetworkReceived => (
            "nyrun_network_received_bytes",
            "Total bytes received from clients",
        ),
        Metric::NetworkSent => ("nyrun_network_sent_bytes", "Total bytes sent to clients"),
        Metric::ResponseSize => (
            "nyrun_response_size_bytes",
            "Response body size distribution in bytes",
        ),
        Metric::UpstreamErrors => ("nyrun_upstream_errors", "Total upstream connection errors"),
        Metric::OciPulls => ("nyrun_oci_pulls", "Total OCI image pulls"),
        Metric::OciPullErrors => ("nyrun_oci_pull_errors", "Total OCI image pull failures"),
    };
    MetricInfo { metric: m, name: name.to_string(), help: help.to_string() }
}

/// All metrics, in the order in which they are registered.
pub fn new_registered() -> (r: Vec<MetricInfo>)
    ensures
        r@.map_values(|i: MetricInfo| i@) == all_metrics().map_values(|m: Metric| info_of(m)),
{
    let mut out: Vec<MetricInfo> = Vec::new();
    out.push(metric_info(Metric::HttpRequests));
    out.push(metric_info(Metric::HttpRequestDuration));
    out.push(metric_info(Metric::ActiveConnections));
    out.push(metric_info(Metric::CacheOperations));
    out.push(metric_info(Metric::ManagedProcesses));
    out.push(metric_info(Metric::ProcessRestarts));
    out.push(metric_info(Metric::ProcessCpuUsage));
    out.push(metric_info(Metric::ProcessMemory));
    out.push(metric_info(Metric::NetworkReceived));
    out.push(metric_info(Metric::NetworkSent));
    out.push(metric_info(Metric::ResponseSize));
    out.push(metric_info(Metric::UpstreamErrors));
    out.push(metric_info(Metric::OciPulls));
    out.push(metric_info(Metric::OciPullErrors));
    assert(out@.map_values(|i: MetricInfo| i@) =~= all_metrics().map_values(
        |m: Metric| info_of(m),
    ));
    out
}

/// No two metrics share a name.
pub proof fn law_names_distinct(a: Metric, b: Metric)
    requires
        a != b,
    ensures
        name_of_metric(a) != name_of_metric(b),
{
    reveal_strlit("nyrun_http_requests");
    reveal_strlit("nyrun_http_request_duration_seconds");
    reveal_strlit("nyrun_active_connections");
    reveal_strlit("nyrun_cache_operations");
    reveal_strlit("nyrun_managed_processes");
    reveal_strlit("nyrun_process_restarts");
    reveal_strlit("nyrun_process_cpu_usage_percent");
    reveal_strlit("nyrun_process_memory_bytes");
    reveal_strlit("nyrun_network_received_bytes");
    reveal_strlit("nyrun_network_sent_bytes");
    reveal_strlit("nyrun_response_size_bytes");
    reveal_strlit("nyrun_upstream_errors");
    reveal_strlit("nyrun_oci_pulls");
    reveal_strlit("nyrun_oci_pull_errors");
    let x = name_of_metric(a);
    let y = name_of_metric(b);
    if x.len() == y.len() {
        assert(x[6] != y[6] || x[10] != y[10] || x[14] != y[14]);
    }
}

// ---------------------------------------------------------------------------
// The metrics server
// ---------------------------------------------------------------------------

/// What the metrics server answers; the metrics are missing where they cannot be written.
pub open spec fn metrics_answer(body: Option<Seq<char>>, size: nat) -> Seq<char> {
    match body {
        Some(b) => "HTTP/1.1 200 OK\r\nContent-Type: application/openmetrics-text; version=1.0.0; charset=utf-8\r\nContent-Length: "@
            + decimal(size) + "\r\n\r\n"@ + b,
        None => "HTTP/1.1 500 Internal Server Error\r\nContent-Length: 0\r\n\r\n"@,
    }
}

/// What the metrics server answers.
pub fn serve_metrics(body: &Option<String>) -> (r: String)
    ensures
        r@ == match *body {
            Some(b) => metrics_answer(Some(b@), encode_utf8(b@).len()),
            None => metrics_answer(None, 0),
        },
{
    match body {
        Some(b) => {
            let size = number_text(b.as_str().as_bytes().len() as u64);
            cat4(
                "HTTP/1.1 200 OK\r\nContent-Type: application/openmetrics-text; version=1.0.0; charset=utf-8\r\nContent-Length: ",
                size.as_str(),
                "\r\n\r\n",
                b.as_str(),
            )
        },
        None => "HTTP/1.1 500 Internal Server Error\r\nContent-Length: 0\r\n\r\n".to_string(),
    }
}

/// Every metric is registered once, under its name and its help.
pub proof fn law_all_registered(m: Metric)
    ensures
        all_metrics().contains(m),
        all_metrics().len() == 14,
        info_of(m).metric == m,
        info_of(m).name == name_of_metric(m),
        info_of(m).help == help_of_metric(m),
{
    let i: int = match m {
        Metric::HttpRequests => 0,
        Metric::HttpRequestDuration => 1,
        Metric::ActiveConnections => 2,
        Metric::CacheOperations => 3,
        Metric::ManagedProcesses => 4,
        Metric::ProcessRestarts => 5,
        Metric::ProcessCpuUsage => 6,
        Metric::ProcessMemory => 7,
        Metric::NetworkReceived => 8,
        Metric::NetworkSent => 9,
        Metric::ResponseSize => 10,
        Metric::UpstreamErrors => 11,
        Metric::OciPulls => 12,
        Metric::OciPullErrors => 13,
    };
    assert(all_metrics()[i] == m);
}

/// The answer with the metrics gives their length before them; without them it is an error.
pub proof fn law_metrics_page(body: Seq<char>, size: nat)
    ensures
        metrics_answer(Some(body), size) == "HTTP/1.1 200 OK\r\nContent-Type: application/openmetrics-text; version=1.0.0; charset=utf-8\r\n"@
            + ("Content-Length: "@ + decimal(size) + "\r\n\r\n"@) + body,
        metrics_answer(None, size) == "HTTP/1.1 500 Internal Server Error\r\nContent-Length: 0\r\n\r\n"@,
{
    let a = "HTTP/1.1 200 OK\r\nContent-Type: application/openmetrics-text; version=1.0.0; charset=utf-8\r\n"@;
    let b = "Content-Length: "@;
    let c = "HTTP/1.1 200 OK\r\nContent-Type: application/openmetrics-text; version=1.0.0; charset=utf-8\r\nContent-Length: "@;
    reveal_strlit(
        "HTTP/1.1 200 OK\r\nContent-Type: application/openmetrics-text; version=1.0.0; charset=utf-8\r\n",
    );
    reveal_strlit("Content-Length: ");
    reveal_strlit(
        "HTTP/1.1 200 OK\r\nContent-Type: application/openmetrics-text; version=1.0.0; charset=utf-8\r\nContent-Length: ",
    );
    assert(a + b =~= c);
    assert(metrics_answer(Some(body), size) =~= a + (b + decimal(size) + "\r\n\r\n"@) + body);
}

/// Every metric is named after the daemon.
pub proof fn law_names_prefixed(m: Metric)
    ensures
        name_of_metric(m).len() > 6,
        name_of_metric(m).take(6) == seq!['n', 'y', 'r', 'u', 'n', '_'],
{
    reveal_strlit("nyrun_http_requests");
    reveal_strlit("nyrun_http_request_duration_seconds");
    reveal_strlit("nyrun_active_connections");
    reveal_strlit("nyrun_cache_operations");
    reveal_strlit("nyrun_managed_processes");
    reveal_strlit("nyrun_process_restarts");
    reveal_strlit("nyrun_process_cpu_usage_percent");
    reveal_strlit("nyrun_process_memory_bytes");
    reveal_strlit("nyrun_network_received_bytes");
    reveal_strlit("nyrun_network_sent_bytes");
    reveal_strlit("nyrun_response_size_bytes");
    reveal_strlit("nyrun_upstream_errors");
    reveal_strlit("nyrun_oci_pulls");
    reveal_strlit("nyrun_oci_pull_errors");
    assert(name_of_metric(m).take(6) =~= seq!['n', 'y', 'r', 'u', 'n', '_']);
}

} // verus!
