//! The SQL store against a real in-memory database: schema creation, row
//! round trips, settings, chunks and events.

use ciel_core::model::{Download, ChunkRecord};
use ciel_core::status::{DownloadStatus, DownloadProtocol};
use ciel_core::store::{
    open_db, init_db, insert_download, get_all_downloads, get_history, update_download_status,
    update_download_progress, update_download_size, update_download_name, delete_download_by_id,
    get_setting, set_setting, get_all_settings, check_filepath_exists, insert_chunks,
    update_chunk_progress, get_download_chunks, log_event, get_download_events,
    delete_finished_downloads, find_download_by_url, get_download_status, download_to_params,
    download_from_row,
};

fn fresh_db() -> rusqlite::Connection {
    let mut conn = open_db(":memory:").unwrap();
    init_db(&mut conn).unwrap();
    conn
}

fn sample(id: &str, path: &str) -> Download {
    Download {
        id: id.to_string(),
        url: format!("https://h.test/{id}"),
        filename: "f.bin".to_string(),
        filepath: path.to_string(),
        size: 1000,
        downloaded: 250,
        status: DownloadStatus::Paused,
        protocol: DownloadProtocol::Http,
        speed: 0,
        connections: 8,
        created_at: "2024-05-01T10:00:00Z".to_string(),
        completed_at: None,
        error_message: None,
        info_hash: None,
        metadata: Some("{\"k\":1}".to_string()),
        user_agent: Some("agent".to_string()),
        cookies: None,
        category: "Other".to_string(),
    }
}

#[test]
fn row_codec_round_trip() {
    let d = sample("r1", "/dl/f.bin");
    let cols = download_to_params(&d);
    let back = download_from_row(&cols).unwrap();
    assert_eq!(back.id, d.id);
    assert_eq!(back.url, d.url);
    assert_eq!(back.filename, d.filename);
    assert_eq!(back.filepath, d.filepath);
    assert_eq!(back.size, d.size);
    assert_eq!(back.downloaded, d.downloaded);
    assert_eq!(back.status, d.status);
    assert_eq!(back.protocol, d.protocol);
    assert_eq!(back.speed, d.speed);
    assert_eq!(back.connections, d.connections);
    assert_eq!(back.created_at, d.created_at);
    assert_eq!(back.completed_at, d.completed_at);
    assert_eq!(back.metadata, d.metadata);
    assert_eq!(back.user_agent, d.user_agent);
    assert_eq!(back.category, d.category);
}

#[test]
fn row_codec_rejects_junk() {
    // A completed row without its timestamp breaks the invariant.
    let mut d = sample("r2", "/dl/g.bin");
    d.status = DownloadStatus::Completed;
    let cols = download_to_params(&d);
    assert!(download_from_row(&cols).is_none());
    // Progress past the size is junk too.
    let mut cols = download_to_params(&sample("r3", "/dl/h.bin"));
    cols[5] = Some("2000".to_string());
    assert!(download_from_row(&cols).is_none());
}

#[test]
fn insert_and_read_back() {
    let conn = fresh_db();
    insert_download(&conn, &sample("a", "/dl/a.bin")).unwrap();
    insert_download(&conn, &sample("b", "/dl/b.bin")).unwrap();
    let rows = get_all_downloads(&conn).unwrap();
    assert_eq!(rows.len(), 2);
    let a = rows.iter().find(|d| d.id == "a").unwrap();
    assert_eq!(a.filepath, "/dl/a.bin");
    assert_eq!(a.size, 1000);
    assert_eq!(a.downloaded, 250);
    assert_eq!(a.status, DownloadStatus::Paused);
    assert_eq!(a.metadata.as_deref(), Some("{\"k\":1}"));
}

#[test]
fn status_progress_and_size_updates() {
    let conn = fresh_db();
    insert_download(&conn, &sample("a", "/dl/a.bin")).unwrap();
    update_download_status(&conn, "a", DownloadStatus::Downloading).unwrap();
    assert_eq!(get_download_status(&conn, "a").unwrap(), Some(DownloadStatus::Downloading));
    update_download_progress(&conn, "a", 600, 1234).unwrap();
    update_download_size(&conn, "a", 2000).unwrap();
    update_download_name(&conn, "a", "renamed.bin").unwrap();
    let rows = get_all_downloads(&conn).unwrap();
    assert_eq!(rows[0].downloaded, 600);
    assert_eq!(rows[0].speed, 1234);
    assert_eq!(rows[0].size, 2000);
    assert_eq!(rows[0].filename, "renamed.bin");
}

#[test]
fn history_lists_only_completed() {
    let conn = fresh_db();
    let mut done = sample("done", "/dl/done.bin");
    done.status = DownloadStatus::Completed;
    done.downloaded = 1000;
    done.completed_at = Some("2024-05-01T11:00:00Z".to_string());
    insert_download(&conn, &done).unwrap();
    insert_download(&conn, &sample("live", "/dl/live.bin")).unwrap();
    let hist = get_history(&conn).unwrap();
    assert_eq!(hist.len(), 1);
    assert_eq!(hist[0].id, "done");
    delete_finished_downloads(&conn).unwrap();
    assert_eq!(get_all_downloads(&conn).unwrap().len(), 1);
}

#[test]
fn find_and_filepath_checks() {
    let conn = fresh_db();
    insert_download(&conn, &sample("a", "/dl/a.bin")).unwrap();
    assert!(check_filepath_exists(&conn, "/dl/a.bin").unwrap());
    assert!(!check_filepath_exists(&conn, "/dl/zz.bin").unwrap());
    let hit = find_download_by_url(&conn, "https://h.test/a").unwrap().unwrap();
    assert_eq!(hit.id, "a");
    assert!(find_download_by_url(&conn, "https://h.test/none").unwrap().is_none());
    delete_download_by_id(&conn, "a").unwrap();
    assert!(get_all_downloads(&conn).unwrap().is_empty());
}

#[test]
fn settings_defaults_and_updates() {
    let conn = fresh_db();
    assert_eq!(get_setting(&conn, "max_concurrent").unwrap().as_deref(), Some("3"));
    set_setting(&conn, "max_concurrent", "5").unwrap();
    assert_eq!(get_setting(&conn, "max_concurrent").unwrap().as_deref(), Some("5"));
    assert!(get_setting(&conn, "unknown_key").unwrap().is_none());
    let all = get_all_settings(&conn).unwrap();
    assert!(all.iter().any(|(k, v)| k == "theme" && v == "dark"));
}

#[test]
fn chunk_rows_round_trip() {
    let mut conn = fresh_db();
    insert_download(&conn, &sample("a", "/dl/a.bin")).unwrap();
    let chunks = vec![
        ChunkRecord { download_id: "a".to_string(), start: 0, end: 499, downloaded: 0 },
        ChunkRecord { download_id: "a".to_string(), start: 500, end: 999, downloaded: 0 },
    ];
    insert_chunks(&mut conn, &chunks).unwrap();
    update_chunk_progress(&conn, "a", 0, 100).unwrap();
    let back = get_download_chunks(&conn, "a").unwrap();
    assert_eq!(back.len(), 2);
    assert_eq!(back[0].start, 0);
    assert_eq!(back[0].end, 499);
    assert_eq!(back[0].downloaded, 100);
    assert_eq!(back[1].start, 500);
    assert_eq!(back[1].downloaded, 0);
    assert_eq!(back[0].download_id, "a");
}

#[test]
fn events_are_logged_newest_first() {
    let conn = fresh_db();
    insert_download(&conn, &sample("a", "/dl/a.bin")).unwrap();
    log_event(&conn, "a", "created", "2024-05-01T10:00:00Z", Some("HTTP download initiated"))
        .unwrap();
    log_event(&conn, "a", "paused", "2024-05-01T10:05:00Z", None).unwrap();
    let events = get_download_events(&conn, "a").unwrap();
    assert_eq!(events.len(), 2);
    assert_eq!(events[0].0, "paused");
    assert_eq!(events[1].0, "created");
    assert_eq!(events[1].2.as_deref(), Some("HTTP download initiated"));
}

#[test]
fn init_is_idempotent() {
    let mut conn = open_db(":memory:").unwrap();
    init_db(&mut conn).unwrap();
    init_db(&mut conn).unwrap();
    assert!(get_all_downloads(&conn).unwrap().is_empty());
}

#[test]
fn error_messages_are_retained() {
    let conn = fresh_db();
    insert_download(&conn, &sample("a", "/dl/a.bin")).unwrap();
    ciel_core::store::update_download_status(&conn, "a", ciel_core::status::DownloadStatus::Downloading).unwrap();
    ciel_core::store::update_download_error(&conn, "a", "connection reset").unwrap();
    ciel_core::store::update_download_status(&conn, "a", ciel_core::status::DownloadStatus::Error).unwrap();
    let rows = get_all_downloads(&conn).unwrap();
    assert_eq!(rows[0].error_message.as_deref(), Some("connection reset"));
}

#[test]
fn listings_come_back_newest_first() {
    let conn = fresh_db();
    let mut a = sample("a", "/dl/a.bin");
    a.created_at = "2024-05-01T10:00:00Z".to_string();
    let mut b = sample("b", "/dl/b.bin");
    b.created_at = "2024-05-02T10:00:00Z".to_string();
    insert_download(&conn, &a).unwrap();
    insert_download(&conn, &b).unwrap();
    let rows = get_all_downloads(&conn).unwrap();
    assert_eq!(rows[0].id, "b");
    assert_eq!(rows[1].id, "a");
}
