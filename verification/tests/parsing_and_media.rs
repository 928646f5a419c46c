//! Magnet info hashes, filenames, extractor stream parsing, checksums, and
//! the peripheral heuristics.

use ciel_core::magnet::parse_info_hash;
use ciel_core::filename::{sanitize_filename, extract_filename, url_filename};
use ciel_core::media::{parse_size, parse_eta, MediaProgress, format_selector};
use ciel_core::hash::checksum_matches;
use ciel_core::clip::{is_valid_url, autocatch_decision};
use ciel_core::sched::{format_hhmm, decide_tick, SchedulerAction};
use ciel_core::bins::Binary;
use ciel_core::model::{DownloadError, DownloadConfig};
use ciel_core::torrent::{TorrentMonitor, torrent_status};
use ciel_core::path::resolve_download_path;
use ciel_core::filename::category_for_filename;
use ciel_core::media::{mp4_output_path, keep_format};
use ciel_core::engine::normalize_url;
use ciel_core::manager::ActiveSet;
use ciel_core::torrent::has_ghost;
use ciel_core::media::{parse_progress_line, parse_percent_tenths};
use ciel_core::filename::probe_filename;

#[test]
fn magnet_hex_info_hash() {
    let h = parse_info_hash(
        "magnet:?xt=urn:btih:c12fe1c06bba254a9dc9f519b335aa7c1367a88a&dn=x",
    )
    .unwrap();
    assert_eq!(h, "c12fe1c06bba254a9dc9f519b335aa7c1367a88a");
}

#[test]
fn magnet_uppercase_hex_is_lowered() {
    let h = parse_info_hash("magnet:?xt=urn:btih:C12FE1C06BBA254A9DC9F519B335AA7C1367A88A")
        .unwrap();
    assert_eq!(h, "c12fe1c06bba254a9dc9f519b335aa7c1367a88a");
}

#[test]
fn magnet_base32_info_hash() {
    // 32 base32 characters decode to 20 bytes, re-encoded as 40 hex.
    let h = parse_info_hash("magnet:?xt=urn:btih:IFBEGRCFIZDUQSKKJNGE2TSPKBIVEU2U&dn=y")
        .unwrap();
    assert_eq!(h, "4142434445464748494a4b4c4d4e4f5051525354");
}

#[test]
fn magnet_rejects_malformed() {
    assert!(parse_info_hash("https://example.com/file.bin").is_none());
    assert!(parse_info_hash("magnet:?xt=urn:btih:tooshort").is_none());
    assert!(parse_info_hash("magnet:?xt=urn:btih:zz2fe1c06bba254a9dc9f519b335aa7c1367a88g")
        .is_none());
}

#[test]
fn sanitizing_filenames() {
    assert_eq!(sanitize_filename("movie.mkv"), "movie.mkv");
    assert_eq!(sanitize_filename("a<b>:c\"d/e\\f|g?h*i"), "a_b__c_d_e_f_g_h_i");
    assert_eq!(sanitize_filename("tab\there"), "tab_here");
    assert_eq!(sanitize_filename(""), "download");
}

#[test]
fn filename_from_content_disposition() {
    assert_eq!(
        extract_filename("https://x.test/dl", Some("attachment; filename=\"report.pdf\"")),
        "report.pdf"
    );
    assert_eq!(
        extract_filename("https://x.test/dl", Some("attachment; filename*=UTF-8''na%C3%AFve.txt")),
        "na\u{ef}ve.txt"
    );
    // Percent-encoded plain filename values are decoded too.
    assert_eq!(
        extract_filename("https://x.test/dl", Some("attachment; filename=a%20b.txt")),
        "a b.txt"
    );
}

#[test]
fn filename_from_url() {
    assert_eq!(url_filename("https://h.test/a/b.bin?q=1#frag"), "b.bin");
    assert_eq!(url_filename("https://h.test/a/b/"), "b");
    assert_eq!(url_filename("https://h.test/a%20file.bin"), "a file.bin");
    assert_eq!(url_filename(""), "download");
    assert_eq!(
        extract_filename("https://h.test/c.iso", Some("inline; nothing-here")),
        "c.iso"
    );
}

#[test]
fn size_tokens() {
    assert_eq!(parse_size("5MiB"), 5 * 1024 * 1024);
    assert_eq!(parse_size("1.5KB"), 1536);
    assert_eq!(parse_size("14.31MiB"), 15005122);
    assert_eq!(parse_size("2gb"), 2147483648);
    assert_eq!(parse_size("100"), 100);
    assert_eq!(parse_size("abc"), 0);
    assert_eq!(parse_size("12.3.4MB"), 0);
    assert_eq!(parse_size(""), 0);
}

#[test]
fn eta_tokens() {
    assert_eq!(parse_eta("1:05"), 65);
    assert_eq!(parse_eta("01:02:03"), 3723);
    assert_eq!(parse_eta("90"), 0);
    assert_eq!(parse_eta("1:2:3:4"), 0);
    assert_eq!(parse_eta("xx:10"), 10);
}

#[test]
fn media_progress_accumulates_parts() {
    let mut p = MediaProgress::new();
    // First part: video, 1000 bytes, reaches 50%.
    p.observe_total(1000);
    assert_eq!(p.downloaded(500), 500);
    assert_eq!(p.display_total(0), 1000);
    // The expected overall size dominates while larger.
    assert_eq!(p.display_total(3000), 3000);
    // A new destination finishes the part.
    p.on_new_part();
    assert_eq!(p.accumulated, 1000);
    // Second part: audio, 200 bytes at 25%.
    p.observe_total(200);
    assert_eq!(p.downloaded(250), 1050);
    assert_eq!(p.display_total(0), 1200);
}

#[test]
fn format_selector_shapes() {
    assert_eq!(format_selector("137", Some("140")), "137+140");
    assert_eq!(format_selector("best", None), "best");
}

#[test]
fn sha256_checksums() {
    // The digest of "abc" is a fixed published value.
    assert!(checksum_matches(
        b"abc",
        "BA7816BF8F01CFEA414140DE5DAE2223B00361A396177A9CB410FF61F20015AD"
    ));
    assert!(checksum_matches(
        b"abc",
        "ba7816bf8f01cfea414140de5dae2223b00361a396177a9cb410ff61f20015ad"
    ));
    assert!(!checksum_matches(b"abd", "ba7816bf8f01cfea414140de5dae2223b00361a396177a9cb410ff61f20015ad"));
}

#[test]
fn url_heuristic() {
    assert!(is_valid_url("https://example.com/x"));
    assert!(is_valid_url("HTTP://EXAMPLE.COM"));
    assert!(is_valid_url("magnet:?xt=urn:btih:abc"));
    assert!(is_valid_url("mediafire.com/file"));
    assert!(!is_valid_url("hello world"));
    assert!(!is_valid_url("a\tb.com"));
    assert!(!is_valid_url("a\nb.com"));
    assert!(!is_valid_url("a.b"));
    assert!(!is_valid_url(""));
}

#[test]
fn autocatch_decisions() {
    assert!(autocatch_decision(true, "https://a.test/f.bin", ""));
    assert!(!autocatch_decision(false, "https://a.test/f.bin", ""));
    assert!(!autocatch_decision(true, "https://a.test/f.bin", "https://a.test/f.bin"));
    assert!(!autocatch_decision(true, "", "x"));
}

#[test]
fn scheduler_ticks() {
    assert_eq!(format_hhmm(2, 0), "02:00");
    assert_eq!(format_hhmm(23, 59), "23:59");
    assert_eq!(
        decide_tick(true, "02:00", "02:00", "08:00"),
        SchedulerAction::ResumeAll
    );
    assert_eq!(
        decide_tick(true, "08:00", "02:00", "08:00"),
        SchedulerAction::PauseAll
    );
    assert_eq!(
        decide_tick(true, "08:01", "02:00", "08:00"),
        SchedulerAction::Nothing
    );
    assert_eq!(
        decide_tick(false, "02:00", "02:00", "08:00"),
        SchedulerAction::Nothing
    );
}

#[test]
fn binary_names() {
    assert_eq!(Binary::YtDlp.name(), "yt-dlp");
    assert_eq!(Binary::Ffmpeg.system_name(), "ffmpeg");
}

#[test]
fn error_messages() {
    assert_eq!(
        DownloadError::Network("timed out".to_string()).message(),
        "Network error: timed out"
    );
    assert_eq!(DownloadError::NoRangeSupport.message(), "Server does not support range requests");
    assert_eq!(DownloadError::Cancelled.message(), "Download cancelled");
    assert_eq!(DownloadError::AuthRequired.message(), "Login or consent required");
}

#[test]
fn fallback_config() {
    let c = DownloadConfig::fallback();
    assert_eq!(c.connections, 16);
    assert_eq!(c.chunk_size, 5 * 1024 * 1024);
    assert_eq!(c.speed_limit, 0);
}

#[test]
fn torrent_monitor_smooths_and_suppresses() {
    let mut m = TorrentMonitor::new();
    // 1000 bytes over 1 s with peers: raw 1000, early weight 7/10.
    let s1 = m.tick(1000, 1000, 3);
    assert_eq!(s1, 700);
    assert_eq!(m.last_bytes, 1000);
    // A 6 MB/s spike with no peers right after a resume is the disk
    // verification pass, not transfer: it is suppressed.
    let s2 = m.tick(1000 + 6_000_000, 1000, 0);
    assert_eq!(s2, 700);
    // Status lines per phase.
    assert_eq!(torrent_status(0, false, 5), "Fetching Metadata...");
    assert_eq!(torrent_status(100, true, 5), "Paused");
    assert_eq!(torrent_status(100, false, 0), "Connecting...");
    assert_eq!(torrent_status(100, false, 12), "Downloading (12 peers)");
}

#[test]
fn download_path_resolution() {
    // Absolute requests stand as they are.
    assert_eq!(resolve_download_path("/abs/file.bin", "/cfg", "/fall"), "/abs/file.bin");
    assert_eq!(resolve_download_path("C:\\x\\f.bin", "/cfg", "/fall"), "C:\\x\\f.bin");
    // Relative names land under the configured directory.
    assert_eq!(resolve_download_path("file.bin", "/cfg", "/fall"), "/cfg/file.bin");
    // Only the final segment of a relative path is kept.
    assert_eq!(resolve_download_path("sub/file.bin", "/cfg/", "/fall"), "/cfg/file.bin");
    // Without a configured directory, the fallback is used.
    assert_eq!(resolve_download_path("file.bin", "", "/fall"), "/fall/file.bin");
}

#[test]
fn category_buckets() {
    assert_eq!(category_for_filename("movie.MKV"), "Video");
    assert_eq!(category_for_filename("song.mp3"), "Audio");
    assert_eq!(category_for_filename("arch.tar"), "Compressed");
    assert_eq!(category_for_filename("setup.exe"), "Software");
    assert_eq!(category_for_filename("paper.pdf"), "Documents");
    assert_eq!(category_for_filename("strange.xyz"), "Other");
    assert_eq!(category_for_filename("no_extension"), "Other");
}

#[test]
fn mp4_output_paths() {
    // Audio-only targets keep their extension.
    assert_eq!(mp4_output_path("/d/track.m4a"), "/d/track.m4a");
    assert_eq!(mp4_output_path("/d/track.opus"), "/d/track.opus");
    // Already MP4, any case.
    assert_eq!(mp4_output_path("/d/clip.MP4"), "/d/clip.MP4");
    // Other extensions are replaced; none is appended.
    assert_eq!(mp4_output_path("/d/clip.webm"), "/d/clip.mp4");
    assert_eq!(mp4_output_path("/d/clip"), "/d/clip.mp4");
}

#[test]
fn format_filtering() {
    assert!(keep_format("mp4", "137"));
    assert!(!keep_format("mhtml", "sb0"));
    assert!(!keep_format("mp4", "sb-mhtml"));
    assert!(!keep_format("webm", "248"));
}

#[test]
fn drive_urls_are_normalized() {
    assert_eq!(
        normalize_url("https://drive.google.com/file/d/FILE123/view?usp=sharing"),
        "https://drive.google.com/uc?export=download&id=FILE123&confirm=t"
    );
    assert_eq!(
        normalize_url("https://example.com/plain.bin"),
        "https://example.com/plain.bin"
    );
}

#[test]
fn permanent_failures_are_not_retried() {
    assert!(DownloadError::AuthRequired.is_permanent());
    assert!(DownloadError::InvalidUrl("x".to_string()).is_permanent());
    assert!(DownloadError::Cancelled.is_permanent());
    assert!(!DownloadError::Network("reset".to_string()).is_permanent());
    assert!(!DownloadError::Io("disk".to_string()).is_permanent());
}

#[test]
fn active_set_bookkeeping() {
    let mut set = ActiveSet::new();
    assert_eq!(set.count(), 0);
    assert!(set.add_active("a".to_string()));
    assert!(set.add_active("b".to_string()));
    // Registering twice is a no-op.
    assert!(!set.add_active("a".to_string()));
    assert_eq!(set.count(), 2);
    assert!(set.is_active("a"));
    assert!(!set.is_active("c"));
    assert!(set.remove_active("a"));
    assert!(!set.remove_active("a"));
    assert_eq!(set.count(), 1);
}

#[test]
fn ghost_detection() {
    let known = vec!["aaaa".to_string(), "bbbb".to_string()];
    assert!(has_ghost(&known, "bbbb"));
    assert!(!has_ghost(&known, "cccc"));
}

#[test]
fn progress_lines_are_dissected() {
    let p = parse_progress_line("[download]  42.3% of 14.31MiB at 1.50MiB/s ETA 00:05").unwrap();
    assert_eq!(p.percent_tenths, 423);
    assert_eq!(p.total, 15005122);
    assert_eq!(p.speed, 1572864);
    assert_eq!(p.eta, 5);
    // A phase marker is not a progress line.
    assert!(parse_progress_line("[Merger] Merging formats").is_none());
    assert!(parse_progress_line("[download] Destination: clip.f137.mp4").is_none());
    // Missing pieces read as zero.
    let q = parse_progress_line("[download] 100% of 2KiB").unwrap();
    assert_eq!(q.percent_tenths, 1000);
    assert_eq!(q.total, 2048);
    assert_eq!(q.speed, 0);
    assert_eq!(q.eta, 0);
}

#[test]
fn percent_tenths_parsing() {
    assert_eq!(parse_percent_tenths("42.3%"), 423);
    assert_eq!(parse_percent_tenths("100%"), 1000);
    assert_eq!(parse_percent_tenths("7%"), 70);
    // Over a hundred percent clamps; garbage reads as zero.
    assert_eq!(parse_percent_tenths("250.9%"), 1000);
    assert_eq!(parse_percent_tenths("n/a"), 0);
}

#[test]
fn placeholder_probe_names_are_suppressed() {
    assert_eq!(
        probe_filename("https://h.test/report.pdf", None).as_deref(),
        Some("report.pdf")
    );
    assert!(probe_filename("https://h.test/download", None).is_none());
    assert!(probe_filename("https://h.test/uc?id=x", None).is_none());
    assert!(probe_filename("https://h.test/download_file", None).is_none());
}

#[test]
fn quoteless_extended_filename_falls_through() {
    // A filename*= value without the charset quote is unreadable; the
    // plain filename= wins.
    assert_eq!(
        extract_filename(
            "https://x.test/dl",
            Some("attachment; filename*=bad.txt; filename=\"real.txt\"")
        ),
        "real.txt"
    );
}
