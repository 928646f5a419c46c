//! The registry: intake with collision-free paths, queue discipline, the
//! lifecycle state machine, and progress bookkeeping.

use ciel_core::registry::{Registry, AddRequest, RegistryError};
use ciel_core::status::{DownloadStatus, DownloadProtocol};
use ciel_core::path::resolve_unique_path;
use ciel_core::chunks::plan_chunks;

fn req(filepath: &str) -> AddRequest {
    AddRequest {
        url: format!("https://example.com/{filepath}"),
        filename: filepath.to_string(),
        filepath: format!("/dl/{filepath}"),
        protocol: DownloadProtocol::Http,
        connections: 8,
        user_agent: None,
        cookies: None,
        metadata: None,
        category: "Other".to_string(),
    }
}

fn stamp(n: u32) -> String {
    format!("2024-01-01T00:00:{n:02}Z")
}

#[test]
fn unique_path_counters() {
    let taken: Vec<String> = Vec::new();
    assert_eq!(resolve_unique_path("/d/movie.mkv", &taken).unwrap(), "/d/movie.mkv");
    let taken = vec!["/d/movie.mkv".to_string()];
    assert_eq!(resolve_unique_path("/d/movie.mkv", &taken).unwrap(), "/d/movie (1).mkv");
    let taken = vec!["/d/movie.mkv".to_string(), "/d/movie (1).mkv".to_string()];
    assert_eq!(resolve_unique_path("/d/movie.mkv", &taken).unwrap(), "/d/movie (2).mkv");
    // A free earlier counter is reused: the smallest wins.
    let taken = vec!["/d/movie.mkv".to_string(), "/d/movie (2).mkv".to_string()];
    assert_eq!(resolve_unique_path("/d/movie.mkv", &taken).unwrap(), "/d/movie (1).mkv");
    // No extension: the counter goes at the end.
    let taken = vec!["/d/notes".to_string()];
    assert_eq!(resolve_unique_path("/d/notes", &taken).unwrap(), "/d/notes (1)");
    // A dot in a directory name is not an extension.
    let taken = vec!["/d.d/notes".to_string()];
    assert_eq!(resolve_unique_path("/d.d/notes", &taken).unwrap(), "/d.d/notes (1)");
}

#[test]
fn three_same_filenames_get_distinct_paths() {
    let mut reg = Registry::new(3);
    let disk: Vec<String> = Vec::new();
    let mut paths = Vec::new();
    for i in 0..3u32 {
        let d = reg
            .add_row(req("movie.mkv"), format!("id-{i}"), stamp(i), &disk, false)
            .unwrap();
        paths.push(d.filepath);
    }
    assert_eq!(paths[0], "/dl/movie.mkv");
    assert_eq!(paths[1], "/dl/movie (1).mkv");
    assert_eq!(paths[2], "/dl/movie (2).mkv");
}

#[test]
fn disk_collisions_count_too() {
    let mut reg = Registry::new(3);
    let disk = vec!["/dl/movie.mkv".to_string()];
    let d = reg.add_row(req("movie.mkv"), "id-0".to_string(), stamp(0), &disk, false).unwrap();
    assert_eq!(d.filepath, "/dl/movie (1).mkv");
}

#[test]
fn intake_statuses_follow_queue_discipline() {
    let mut reg = Registry::new(2);
    let disk: Vec<String> = Vec::new();
    let a = reg.add_row(req("a.bin"), "a".into(), stamp(0), &disk, false).unwrap();
    let b = reg.add_row(req("b.bin"), "b".into(), stamp(1), &disk, false).unwrap();
    let c = reg.add_row(req("c.bin"), "c".into(), stamp(2), &disk, false).unwrap();
    let p = reg.add_row(req("p.bin"), "p".into(), stamp(3), &disk, true).unwrap();
    assert_eq!(a.status, DownloadStatus::Downloading);
    assert_eq!(b.status, DownloadStatus::Downloading);
    assert_eq!(c.status, DownloadStatus::Queued);
    assert_eq!(p.status, DownloadStatus::Paused);
    assert_eq!(reg.count_downloading(), 2);
    // New rows start with nothing transferred.
    assert_eq!(a.size, 0);
    assert_eq!(a.downloaded, 0);
    assert!(a.completed_at.is_none());
}

#[test]
fn duplicate_ids_are_refused() {
    let mut reg = Registry::new(2);
    let disk: Vec<String> = Vec::new();
    reg.add_row(req("a.bin"), "same".into(), stamp(0), &disk, false).unwrap();
    let e = reg.add_row(req("b.bin"), "same".into(), stamp(1), &disk, false).unwrap_err();
    assert_eq!(e, RegistryError::DuplicateId);
}

#[test]
fn queue_promotion_is_oldest_first() {
    let mut reg = Registry::new(2);
    let disk: Vec<String> = Vec::new();
    for i in 0..5u32 {
        reg.add_row(req(&format!("f{i}.bin")), format!("id-{i}"), stamp(i), &disk, false)
            .unwrap();
    }
    // Two run, three wait.
    assert_eq!(reg.count_downloading(), 2);
    // Nothing promotes while both slots are busy.
    assert!(reg.promote_next().is_none());
    // Finishing one frees a slot; the oldest queued row is promoted.
    reg.complete_row("id-0", stamp(10)).unwrap();
    assert_eq!(reg.count_downloading(), 1);
    let promoted = reg.promote_next().unwrap();
    assert_eq!(promoted, "id-2");
    assert_eq!(reg.count_downloading(), 2);
    // Draining the queue promotes in creation order, one per free slot.
    reg.complete_row("id-1", stamp(11)).unwrap();
    assert_eq!(reg.promote_next().unwrap(), "id-3");
    reg.complete_row("id-2", stamp(12)).unwrap();
    assert_eq!(reg.promote_next().unwrap(), "id-4");
    assert!(reg.promote_next().is_none());
    // At no point did more rows run than the cap.
    assert!(reg.count_downloading() <= 2);
}

#[test]
fn lifecycle_transitions() {
    let mut reg = Registry::new(2);
    let disk: Vec<String> = Vec::new();
    reg.add_row(req("a.bin"), "a".into(), stamp(0), &disk, false).unwrap();
    // Pause a running row, resume it.
    reg.pause_row("a").unwrap();
    assert_eq!(reg.row_at(0).status, DownloadStatus::Paused);
    reg.resume_row("a").unwrap();
    assert_eq!(reg.row_at(0).status, DownloadStatus::Downloading);
    // Resuming a running row is a no-op.
    reg.resume_row("a").unwrap();
    assert_eq!(reg.row_at(0).status, DownloadStatus::Downloading);
    // Failure keeps the message; a user retry resumes.
    reg.fail_row("a", "connection reset".to_string()).unwrap();
    assert_eq!(reg.row_at(0).status, DownloadStatus::Error);
    assert_eq!(reg.row_at(0).error_message.as_deref(), Some("connection reset"));
    reg.resume_row("a").unwrap();
    // Completion is terminal: no pause, no resume.
    reg.update_size("a", 100).unwrap();
    reg.update_progress("a", 100, 0).unwrap();
    reg.complete_row("a", stamp(5)).unwrap();
    let row = reg.row_at(0);
    assert_eq!(row.status, DownloadStatus::Completed);
    assert_eq!(row.downloaded, 100);
    assert_eq!(row.completed_at.as_deref(), Some(stamp(5).as_str()));
    assert_eq!(reg.resume_row("a").unwrap_err(), RegistryError::AlreadyCompleted);
    assert_eq!(reg.pause_row("a").unwrap_err(), RegistryError::NotPermitted);
    // Unknown ids are reported as such.
    assert_eq!(reg.pause_row("ghost").unwrap_err(), RegistryError::NotFound);
}

#[test]
fn pausing_a_queued_row_needs_no_engine() {
    let mut reg = Registry::new(1);
    let disk: Vec<String> = Vec::new();
    reg.add_row(req("a.bin"), "a".into(), stamp(0), &disk, false).unwrap();
    reg.add_row(req("b.bin"), "b".into(), stamp(1), &disk, false).unwrap();
    assert_eq!(reg.row_at(1).status, DownloadStatus::Queued);
    reg.pause_row("b").unwrap();
    assert_eq!(reg.row_at(1).status, DownloadStatus::Paused);
}

#[test]
fn resume_respects_the_concurrency_cap() {
    let mut reg = Registry::new(1);
    let disk: Vec<String> = Vec::new();
    reg.add_row(req("a.bin"), "a".into(), stamp(0), &disk, false).unwrap();
    reg.add_row(req("b.bin"), "b".into(), stamp(1), &disk, true).unwrap();
    assert_eq!(reg.resume_row("b").unwrap_err(), RegistryError::QueueFull);
    reg.pause_row("a").unwrap();
    reg.resume_row("b").unwrap();
    assert_eq!(reg.count_downloading(), 1);
}

#[test]
fn progress_never_exceeds_a_known_size() {
    let mut reg = Registry::new(2);
    let disk: Vec<String> = Vec::new();
    reg.add_row(req("a.bin"), "a".into(), stamp(0), &disk, false).unwrap();
    reg.update_size("a", 100).unwrap();
    // A stray larger progress value is clamped into the size.
    reg.update_progress("a", 150, 10).unwrap();
    let row = reg.row_at(0);
    assert_eq!(row.downloaded, 100);
    assert_eq!(row.speed, 10);
    // Shrinking the size clamps progress as well.
    reg.update_size("a", 60).unwrap();
    assert_eq!(reg.row_at(0).downloaded, 60);
}

#[test]
fn delete_removes_the_row() {
    let mut reg = Registry::new(2);
    let disk: Vec<String> = Vec::new();
    reg.add_row(req("a.bin"), "a".into(), stamp(0), &disk, false).unwrap();
    reg.add_row(req("b.bin"), "b".into(), stamp(1), &disk, false).unwrap();
    reg.delete_row("a").unwrap();
    assert_eq!(reg.num_rows(), 1);
    assert_eq!(reg.row_at(0).id, "b");
    assert_eq!(reg.delete_row("a").unwrap_err(), RegistryError::NotFound);
}

#[test]
fn clear_finished_keeps_live_rows() {
    let mut reg = Registry::new(2);
    let disk: Vec<String> = Vec::new();
    reg.add_row(req("a.bin"), "a".into(), stamp(0), &disk, false).unwrap();
    reg.add_row(req("b.bin"), "b".into(), stamp(1), &disk, false).unwrap();
    reg.add_row(req("c.bin"), "c".into(), stamp(2), &disk, true).unwrap();
    reg.complete_row("a", stamp(5)).unwrap();
    reg.fail_row("b", "boom".to_string()).unwrap();
    reg.clear_finished();
    assert_eq!(reg.num_rows(), 1);
    assert_eq!(reg.row_at(0).id, "c");
}

#[test]
fn exhausted_counters_are_the_only_failure() {
    // A taken path already carrying the largest possible counter is the
    // one collision the resolver cannot step past.
    let taken = vec![
        "/d/movie.mkv".to_string(),
        "/d/movie (18446744073709551615).mkv".to_string(),
    ];
    assert!(resolve_unique_path("/d/movie.mkv", &taken).is_none());
    // Without that entry the same collision resolves normally.
    let taken = vec!["/d/movie.mkv".to_string()];
    assert_eq!(resolve_unique_path("/d/movie.mkv", &taken).unwrap(), "/d/movie (1).mkv");
}

#[test]
fn bulk_pause_and_resume() {
    let mut reg = Registry::new(2);
    let disk: Vec<String> = Vec::new();
    for i in 0..4u32 {
        reg.add_row(req(&format!("s{i}.bin")), format!("id-{i}"), stamp(i), &disk, false)
            .unwrap();
    }
    assert_eq!(reg.count_downloading(), 2);
    // The scheduler's pause touches only running rows; queued ones keep
    // their place in the queue.
    reg.pause_all();
    assert_eq!(reg.count_downloading(), 0);
    assert_eq!(reg.row_at(0).status, DownloadStatus::Paused);
    assert_eq!(reg.row_at(2).status, DownloadStatus::Queued);
    reg.resume_all();
    // Slots fill oldest position first, the rest keep waiting.
    assert_eq!(reg.count_downloading(), 2);
    assert_eq!(reg.row_at(0).status, DownloadStatus::Downloading);
    assert_eq!(reg.row_at(1).status, DownloadStatus::Downloading);
    assert_eq!(reg.row_at(2).status, DownloadStatus::Queued);
}

#[test]
fn bulk_resume_leaves_failed_rows_alone() {
    // Retrying a failed row is the user's call, never the scheduler's.
    let mut reg = Registry::new(2);
    let disk: Vec<String> = Vec::new();
    reg.add_row(req("a.bin"), "a".into(), stamp(0), &disk, false).unwrap();
    reg.fail_row("a", "boom".to_string()).unwrap();
    reg.resume_all();
    assert_eq!(reg.row_at(0).status, DownloadStatus::Error);
    reg.resume_row("a").unwrap();
    assert_eq!(reg.row_at(0).status, DownloadStatus::Downloading);
}

#[test]
fn uniform_plan_layout() {
    // 80 MiB over 4 connections: exactly 32 ranges of 2.5 MiB each.
    let size: u64 = 80 * 1024 * 1024;
    let base = size / 32;
    let chunks = plan_chunks("d", size, 4);
    assert_eq!(chunks.len(), 32);
    for (k, c) in chunks.iter().enumerate() {
        assert_eq!(c.start as u64, k as u64 * base);
    }
}
