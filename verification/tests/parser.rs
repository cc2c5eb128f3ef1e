use bench_bot::metrics::parse_metrics;

fn sample_report() -> Vec<u8> {
    let text = "Beginning round 1...\n\
Benchmarking 500 connections @ http://127.0.0.1:3000 for 30 second(s)\n\
  Latencies:\n\
    Avg      Stdev    Min      Max\n\
    3.27ms   1.51ms   0.10ms   19.93ms\n\
  Requests:\n\
    Total: 4575974  Req/Sec: 457963.14\n\
  Transfer:\n\
    Total: 567.13 MB  Transfer Rate: 56.75 MB/Sec\n";
    text.as_bytes().to_vec()
}

#[test]
fn parses_well_formed_report_exactly() {
    let m = parse_metrics(&sample_report()).expect("well-formed report must parse");
    assert_eq!(m.requests_per_sec_centi, 45_796_314);
    assert_eq!(m.latency_avg_ns, 3_270_000);
    assert_eq!(m.latency_stdev_ns, 1_510_000);
    assert_eq!(m.latency_min_ns, 100_000);
    assert_eq!(m.latency_max_ns, 19_930_000);
    assert_eq!(m.transfer_total_bytes, 567_130_000);
}

#[test]
fn parsing_is_deterministic() {
    let a = parse_metrics(&sample_report());
    let b = parse_metrics(&sample_report());
    assert_eq!(a, b);
}

#[test]
fn parses_alternate_units() {
    let text = "Latencies:\n\
  Avg Stdev Min Max\n\
  500us 2s 1us 3.5s\n\
Req/Sec: 12\n\
Transfer:\n\
  Total: 2 GB\n";
    let m = parse_metrics(&text.as_bytes().to_vec()).expect("must parse");
    assert_eq!(m.latency_avg_ns, 500_000);
    assert_eq!(m.latency_stdev_ns, 2_000_000_000);
    assert_eq!(m.latency_min_ns, 1_000);
    assert_eq!(m.latency_max_ns, 3_500_000_000);
    assert_eq!(m.requests_per_sec_centi, 1_200);
    assert_eq!(m.transfer_total_bytes, 2_000_000_000);
}

#[test]
fn parses_byte_and_kilobyte_units() {
    let text = "Latencies:\n\
  Avg Stdev Min Max\n\
  1ms 1ms 1ms 1ms\n\
Req/Sec: 1.5\n\
Transfer:\n\
  Total: 1.5 KB\n";
    let m = parse_metrics(&text.as_bytes().to_vec()).expect("must parse");
    assert_eq!(m.requests_per_sec_centi, 150);
    assert_eq!(m.transfer_total_bytes, 1_500);

    let text2 = "Latencies:\n\
  Avg Stdev Min Max\n\
  1ms 1ms 1ms 1ms\n\
Req/Sec: 7\n\
Transfer:\n\
  Total: 123 B\n";
    let m2 = parse_metrics(&text2.as_bytes().to_vec()).expect("must parse");
    assert_eq!(m2.transfer_total_bytes, 123);
}

#[test]
fn rejects_empty_text() {
    assert!(parse_metrics(&Vec::new()).is_none());
}

#[test]
fn rejects_missing_latency_section() {
    let text = "Req/Sec: 100\nTransfer:\n  Total: 1 MB\n";
    assert!(parse_metrics(&text.as_bytes().to_vec()).is_none());
}

#[test]
fn rejects_missing_transfer_section() {
    let text = "Latencies:\n  Avg Stdev Min Max\n  1ms 1ms 1ms 1ms\nReq/Sec: 100\n";
    assert!(parse_metrics(&text.as_bytes().to_vec()).is_none());
}

#[test]
fn rejects_garbled_number() {
    let text = "Latencies:\n\
  Avg Stdev Min Max\n\
  1..2ms 1ms 1ms 1ms\n\
Req/Sec: 100\n\
Transfer:\n\
  Total: 1 MB\n";
    assert!(parse_metrics(&text.as_bytes().to_vec()).is_none());
}

#[test]
fn rejects_unknown_size_unit() {
    let text = "Latencies:\n\
  Avg Stdev Min Max\n\
  1ms 1ms 1ms 1ms\n\
Req/Sec: 100\n\
Transfer:\n\
  Total: 1 TB\n";
    assert!(parse_metrics(&text.as_bytes().to_vec()).is_none());
}

#[test]
fn rejects_wrong_header_order() {
    let text = "Latencies:\n\
  Stdev Avg Min Max\n\
  1ms 1ms 1ms 1ms\n\
Req/Sec: 100\n\
Transfer:\n\
  Total: 1 MB\n";
    assert!(parse_metrics(&text.as_bytes().to_vec()).is_none());
}

#[test]
fn rejects_oversized_figure() {
    let text = "Latencies:\n\
  Avg Stdev Min Max\n\
  12345678ms 1ms 1ms 1ms\n\
Req/Sec: 100\n\
Transfer:\n\
  Total: 1 MB\n";
    assert!(parse_metrics(&text.as_bytes().to_vec()).is_none());
}

#[test]
fn tolerates_column_spacing() {
    let a = "Latencies:\n  Avg Stdev Min Max\n  1ms 2ms 3ms 4ms\nReq/Sec: 5\nTransfer:\n  Total: 6 MB\n";
    let b = "Latencies:\n\tAvg\t\tStdev   Min \t Max\n 1ms\t2ms     3ms 4ms\nReq/Sec:\t5\nTransfer:\n Total:   6   MB\n";
    let ma = parse_metrics(&a.as_bytes().to_vec()).expect("must parse");
    let mb = parse_metrics(&b.as_bytes().to_vec()).expect("must parse");
    assert_eq!(ma, mb);
}
