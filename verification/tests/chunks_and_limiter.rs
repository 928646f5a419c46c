//! Chunk planning, chunk accounting, and the token-bucket rate limiter.

use ciel_core::chunks::{
    plan_chunks, validate_chunks, sum_downloaded, remaining_chunks, MAX_CHUNK_BYTES,
};
use ciel_core::model::ChunkRecord;
use ciel_core::limiter::{SharedRateLimiter, LimiterOp};

fn assert_partition(chunks: &[ChunkRecord], size: i64) {
    assert!(!chunks.is_empty());
    assert_eq!(chunks[0].start, 0);
    assert_eq!(chunks[chunks.len() - 1].end, size - 1);
    for w in chunks.windows(2) {
        assert_eq!(w[1].start, w[0].end + 1);
    }
    for c in chunks {
        assert!(c.start <= c.end);
        assert!(c.end - c.start + 1 <= MAX_CHUNK_BYTES as i64);
        assert_eq!(c.downloaded, 0);
    }
}

#[test]
fn plan_eighty_mib_four_connections() {
    // 8 ranges per connection over 80 MiB: 32 chunks of 2.5 MiB.
    let size: u64 = 80 * 1024 * 1024;
    let chunks = plan_chunks("d1", size, 4);
    assert_eq!(chunks.len(), 32);
    assert_partition(&chunks, size as i64);
    for c in &chunks {
        assert_eq!(c.download_id, "d1");
        assert_eq!(c.end - c.start + 1, (size / 32) as i64);
    }
}

#[test]
fn plan_caps_long_ranges() {
    // One connection over 100 MiB: base ranges of 12.5 MiB split at 10 MiB.
    let size: u64 = 100 * 1024 * 1024;
    let chunks = plan_chunks("d2", size, 1);
    assert_partition(&chunks, size as i64);
    assert!(chunks.len() > 8);
}

#[test]
fn plan_tiny_file() {
    let chunks = plan_chunks("d3", 5, 4);
    assert_partition(&chunks, 5);
    assert_eq!(chunks.len(), 1);
}

#[test]
fn validate_accepts_planned_chunks() {
    let size: u64 = 30 * 1024 * 1024;
    let chunks = plan_chunks("d4", size, 2);
    assert!(validate_chunks(&chunks, size as i64));
}

#[test]
fn validate_rejects_bad_sets() {
    let good = |start: i64, end: i64, got: i64| ChunkRecord {
        download_id: "x".to_string(),
        start,
        end,
        downloaded: got,
    };
    // A gap between ranges.
    assert!(!validate_chunks(&vec![good(0, 9, 0), good(11, 19, 0)], 20));
    // An overlap.
    assert!(!validate_chunks(&vec![good(0, 10, 0), good(10, 19, 0)], 20));
    // Progress beyond the range.
    assert!(!validate_chunks(&vec![good(0, 9, 11), good(10, 19, 0)], 20));
    // Wrong total length.
    assert!(!validate_chunks(&vec![good(0, 9, 0)], 20));
    // The empty set covers only an empty file.
    assert!(validate_chunks(&Vec::new(), 0));
    assert!(!validate_chunks(&Vec::new(), 1));
}

#[test]
fn progress_sums_and_remaining() {
    let c = |start: i64, end: i64, got: i64| ChunkRecord {
        download_id: "x".to_string(),
        start,
        end,
        downloaded: got,
    };
    let chunks = vec![c(0, 9, 10), c(10, 19, 4), c(20, 29, 0)];
    assert!(validate_chunks(&chunks, 30));
    assert_eq!(sum_downloaded(&chunks, 30), 14);
    let left = remaining_chunks(&chunks);
    assert_eq!(left.len(), 2);
    assert_eq!(left[0].start, 10);
    assert_eq!(left[1].start, 20);
    // A fully completed set sums to the file size.
    let done = vec![c(0, 9, 10), c(10, 19, 10), c(20, 29, 10)];
    assert_eq!(sum_downloaded(&done, 30), 30);
}

#[test]
fn pause_and_resume_replay_exactly_whats_missing() {
    // A transfer is interrupted mid-way; the persisted chunk rows are
    // validated on resume, the finished chunks are skipped, and completing
    // only the remaining ones accounts for every byte exactly once.
    let size: u64 = 25 * 1024 * 1024;
    let mut plan = plan_chunks("d6", size, 2);
    // Simulate partial progress before the pause: finish the first chunk,
    // half of the second, none of the rest.
    let len0 = plan[0].end - plan[0].start + 1;
    plan[0].downloaded = len0;
    let len1 = plan[1].end - plan[1].start + 1;
    plan[1].downloaded = len1 / 2;
    assert!(validate_chunks(&plan, size as i64));
    let paused_progress = sum_downloaded(&plan, size as i64);
    // Resume replays exactly the unfinished chunks.
    let remaining = remaining_chunks(&plan);
    assert_eq!(remaining.len(), plan.len() - 1);
    assert_eq!(remaining[0].start, plan[1].start);
    // Completing every remaining range yields exactly the file size.
    let replayed: i64 = remaining
        .iter()
        .map(|c| c.end - c.start + 1 - c.downloaded)
        .sum();
    assert_eq!(paused_progress + replayed, size as i64);
}

#[test]
fn bucket_starts_full_and_caps() {
    let mut rl = SharedRateLimiter::new(1000);
    assert_eq!(rl.limit, 1000);
    assert_eq!(rl.tokens, 1000);
    assert_eq!(rl.take(400), 400);
    assert_eq!(rl.tokens, 600);
    // A long pause cannot build more than one second of burst.
    rl.refill(60_000);
    assert_eq!(rl.tokens, 1000);
    // A short interval refills proportionally.
    assert_eq!(rl.take(1000), 1000);
    rl.refill(250);
    assert_eq!(rl.tokens, 250);
    // Asking for more than available grants only what is there.
    assert_eq!(rl.take(400), 250);
    assert_eq!(rl.tokens, 0);
}

#[test]
fn rate_stays_under_limit_plus_burst() {
    // Over a 2 s window with an unlimited source, grants stay within
    // limit * time + one bucket of burst.
    let limit: u64 = 64 * 1024;
    let mut rl = SharedRateLimiter::new(limit);
    let mut ops = Vec::new();
    for _ in 0..200 {
        ops.push(LimiterOp::Request { bytes: 1_000_000 });
        ops.push(LimiterOp::Elapse { ms: 10 });
    }
    let granted = rl.run_trace(&ops);
    let elapsed_ms: u128 = 2000;
    assert!(granted <= (limit as u128) + (limit as u128) * elapsed_ms / 1000);
    // The source was unlimited, so at least the initial bucket and each
    // whole refill were granted.
    assert!(granted >= (limit as u128) + 199 * ((limit as u128) * 10 / 1000));
}

#[test]
fn zero_limit_bucket_grants_nothing() {
    // A zero limit disables throttling: callers bypass the bucket, which
    // by itself would grant nothing.
    let mut rl = SharedRateLimiter::new(0);
    assert_eq!(rl.take(100), 0);
}

#[test]
fn rate_bound_holds_from_a_drained_bucket() {
    // A window opened mid-run, with the bucket drained, still obeys the
    // limit-plus-burst bound.
    let mut rl = SharedRateLimiter::new(1000);
    assert_eq!(rl.take(1000), 1000);
    let ops = vec![
        LimiterOp::Elapse { ms: 500 },
        LimiterOp::Request { bytes: 10_000 },
    ];
    let granted = rl.run_trace(&ops);
    assert_eq!(granted, 500);
    assert!(granted <= 1000 + 1000 * 500 / 1000);
}
