//! Statuses, transitions, engine decisions, and number formatting.

use ciel_core::status::{DownloadStatus, DownloadProtocol, can_transition};
use ciel_core::engine::{
    compute_eta, compute_speed, single_stream_required, target_workers, backoff_ms,
    range_header_value, is_blocked_html, should_emit, format_speed,
};
use ciel_core::strutil::{parse_u64, fmt_u64, str_lex_le, str_eq, ascii_lower, str_contains};

#[test]
fn status_as_str_round_trip() {
    let all = [
        DownloadStatus::Queued,
        DownloadStatus::Downloading,
        DownloadStatus::Paused,
        DownloadStatus::Completed,
        DownloadStatus::Error,
    ];
    for s in all {
        assert_eq!(DownloadStatus::from_str(s.as_str()), s);
    }
    assert_eq!(DownloadStatus::from_str("nonsense"), DownloadStatus::Queued);
    assert_eq!(DownloadStatus::Downloading.as_str(), "downloading");
}

#[test]
fn protocol_as_str_round_trip() {
    let all = [DownloadProtocol::Http, DownloadProtocol::Torrent, DownloadProtocol::Video];
    for p in all {
        assert_eq!(DownloadProtocol::from_str(p.as_str()), p);
    }
    assert_eq!(DownloadProtocol::from_str("gopher"), DownloadProtocol::Http);
}

#[test]
fn permitted_edges_only() {
    let q = DownloadStatus::Queued;
    let d = DownloadStatus::Downloading;
    let p = DownloadStatus::Paused;
    let c = DownloadStatus::Completed;
    let e = DownloadStatus::Error;
    // The permitted edges.
    assert!(can_transition(q, d));
    assert!(can_transition(q, p));
    assert!(can_transition(d, p));
    assert!(can_transition(d, e));
    assert!(can_transition(d, c));
    assert!(can_transition(p, d));
    assert!(can_transition(e, d));
    // Completed is terminal; nothing else is an edge.
    assert!(!can_transition(c, d));
    assert!(!can_transition(c, p));
    assert!(!can_transition(p, c));
    assert!(!can_transition(q, c));
    assert!(!can_transition(e, p));
    assert!(!can_transition(p, q));
}

#[test]
fn eta_and_speed_arithmetic() {
    assert_eq!(compute_eta(1000, 400, 200), 3);
    assert_eq!(compute_eta(1000, 400, 0), 0);
    assert_eq!(compute_eta(400, 1000, 10), 0);
    assert_eq!(compute_speed(1024, 1000), 1024);
    assert_eq!(compute_speed(500, 2000), 250);
    assert_eq!(compute_speed(123, 0), 0);
}

#[test]
fn single_stream_decision() {
    // A server without range support and a known size forces one stream.
    assert!(single_stream_required(8, false, 1_048_576));
    // An unknown size does too.
    assert!(single_stream_required(8, true, 0));
    // One requested connection skips the probe path entirely.
    assert!(single_stream_required(1, true, 1_048_576));
    assert!(!single_stream_required(8, true, 1_048_576));
}

#[test]
fn worker_scaling_under_limit() {
    assert_eq!(target_workers(16, 0), 16);
    // 64 KiB/s leaves budget for less than one worker: scaled to one.
    assert_eq!(target_workers(16, 64 * 1024), 1);
    // 2 MiB/s gives four workers of 512 KiB/s each.
    assert_eq!(target_workers(16, 2 * 1024 * 1024), 4);
    // Plenty of budget keeps all connections.
    assert_eq!(target_workers(4, 100 * 1024 * 1024), 4);
}

#[test]
fn backoff_doubles_and_caps() {
    assert_eq!(backoff_ms(1), 1000);
    assert_eq!(backoff_ms(2), 2000);
    assert_eq!(backoff_ms(3), 4000);
    assert_eq!(backoff_ms(5), 16000);
    assert_eq!(backoff_ms(6), 30000);
    assert_eq!(backoff_ms(10), 30000);
}

#[test]
fn range_header_shape() {
    assert_eq!(range_header_value(0, 99), "bytes=0-99");
    assert_eq!(range_header_value(5242880, 10485759), "bytes=5242880-10485759");
}

#[test]
fn html_refusal_is_host_specific() {
    assert!(is_blocked_html("text/html; charset=utf-8", "https://drive.google.com/uc?id=x"));
    assert!(!is_blocked_html("application/octet-stream", "https://drive.google.com/uc?id=x"));
    assert!(!is_blocked_html("text/html", "https://example.com/file.bin"));
}

#[test]
fn emission_throttle() {
    assert!(should_emit(500, 0));
    assert!(!should_emit(150, 0));
    assert!(!should_emit(700, 600));
    assert!(should_emit(900, 600));
}

#[test]
fn speed_formatting() {
    assert_eq!(format_speed(0), "0 B/s");
    assert_eq!(format_speed(512), "512 B/s");
    assert_eq!(format_speed(5324), "5.2 KB/s");
    assert_eq!(format_speed(1536 * 1024), "1.5 MB/s");
    assert_eq!(format_speed(1610612736), "1.50 GB/s");
}

#[test]
fn decimal_parse_and_format() {
    assert_eq!(parse_u64("0"), Some(0));
    assert_eq!(parse_u64("18446744073709551615"), Some(u64::MAX));
    assert_eq!(parse_u64("18446744073709551616"), None);
    assert_eq!(parse_u64(""), None);
    assert_eq!(parse_u64("12a"), None);
    assert_eq!(fmt_u64(0), "0");
    assert_eq!(fmt_u64(90210), "90210");
    assert_eq!(parse_u64(&fmt_u64(123456789)), Some(123456789));
}

#[test]
fn string_helpers() {
    assert!(str_eq("abc", "abc"));
    assert!(!str_eq("abc", "abd"));
    assert!(str_lex_le("2024-01-01T00:00:00Z", "2024-01-02T00:00:00Z"));
    assert!(!str_lex_le("2025-01-01", "2024-12-31"));
    assert_eq!(ascii_lower("MiXeD 123"), "mixed 123");
    assert!(str_contains("content-disposition: filename=x", "filename="));
    assert!(!str_contains("abc", "abd"));
}
