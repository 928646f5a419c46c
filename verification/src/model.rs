//! The registry row (`Download`), chunk rows, per-download configuration,
//! progress snapshots, and the engine's error kinds.

use vstd::prelude::*;
use crate::status::{DownloadStatus, DownloadProtocol};

verus! {

/// One download row of the registry.
#[derive(Debug, Clone)]
pub struct Download {
    /// Unique id string (a UUID in hyphenated form).
    pub id: String,
    /// Source URL (direct link, magnet, or page URL).
    pub url: String,
    /// Display name of the file.
    pub filename: String,
    /// Absolute target path on disk.
    pub filepath: String,
    /// Total expected size in bytes; 0 until known.
    pub size: i64,
    /// Bytes written so far.
    pub downloaded: i64,
    pub status: DownloadStatus,
    pub protocol: DownloadProtocol,
    /// Instantaneous speed, bytes per second.
    pub speed: i64,
    /// Number of connections used for this row.
    pub connections: i32,
    /// ISO-8601 creation timestamp.
    pub created_at: String,
    /// ISO-8601 completion timestamp, set exactly on completion.
    pub completed_at: Option<String>,
    /// Human-readable error details when the status is `Error`.
    pub error_message: Option<String>,
    /// BitTorrent info hash as 40 hex characters.
    pub info_hash: Option<String>,
    /// Opaque metadata (format selection, expected size), carried through.
    pub metadata: Option<String>,
    /// Custom User-Agent for the request, if any.
    pub user_agent: Option<String>,
    /// Request cookies for authenticated downloads, if any.
    pub cookies: Option<String>,
    /// Category bucket derived from the file extension.
    pub category: String,
}

/// Row invariant: byte counts are non-negative, progress never exceeds a
/// known size, and a completed row has a completion timestamp and (when the
/// size is known) all its bytes.
pub open spec fn spec_download_wf(d: Download) -> bool {
    &&& d.size >= 0
    &&& d.downloaded >= 0
    &&& d.size > 0 ==> d.downloaded <= d.size
    &&& d.status == DownloadStatus::Completed ==> {
        &&& d.completed_at is Some
        &&& d.size > 0 ==> d.downloaded == d.size
    }
}

impl Download {
    /// An exact copy of the row.
    pub fn duplicate(&self) -> (d: Download)
        ensures
            d == *self,
    {
        Download {
            id: self.id.clone(),
            url: self.url.clone(),
            filename: self.filename.clone(),
            filepath: self.filepath.clone(),
            size: self.size,
            downloaded: self.downloaded,
            status: self.status,
            protocol: self.protocol,
            speed: self.speed,
            connections: self.connections,
            created_at: self.created_at.clone(),
            completed_at: self.completed_at.clone(),
            error_message: self.error_message.clone(),
            info_hash: self.info_hash.clone(),
            metadata: self.metadata.clone(),
            user_agent: self.user_agent.clone(),
            cookies: self.cookies.clone(),
            category: self.category.clone(),
        }
    }
}

/// Persistence model of one byte-range segment of an HTTP download.
/// `start` and `end` are inclusive byte offsets; `downloaded` counts the
/// bytes already completed within the range.
#[derive(Debug, Clone)]
pub struct ChunkRecord {
    pub download_id: String,
    pub start: i64,
    pub end: i64,
    pub downloaded: i64,
}

/// Chunk invariant: a well-formed range with progress inside it.
pub open spec fn spec_chunk_wf(c: ChunkRecord) -> bool {
    &&& 0 <= c.start <= c.end
    &&& 0 <= c.downloaded <= c.end - c.start + 1
}

impl ChunkRecord {
    /// An exact copy of the chunk row.
    pub fn duplicate(&self) -> (c: ChunkRecord)
        ensures
            c == *self,
    {
        ChunkRecord {
            download_id: self.download_id.clone(),
            start: self.start,
            end: self.end,
            downloaded: self.downloaded,
        }
    }
}

/// Immutable configuration of one HTTP download session.
#[derive(Debug, Clone)]
pub struct DownloadConfig {
    /// Registry id of the download this session serves.
    pub id: String,
    /// Source URL.
    pub url: String,
    /// Absolute target path on disk.
    pub filepath: String,
    /// Maximum number of parallel connections.
    pub connections: u8,
    /// Target size of one planned work unit, in bytes.
    pub chunk_size: u64,
    /// Throttling limit in bytes per second; 0 disables throttling.
    pub speed_limit: u64,
    /// Custom User-Agent, if any.
    pub user_agent: Option<String>,
    /// Cookies for authenticated sessions, if any.
    pub cookies: Option<String>,
}

impl DownloadConfig {
    /// The stock configuration: 16 connections, 5 MiB chunks, no throttle.
    pub fn fallback() -> (c: DownloadConfig)
        ensures
            c.id@ == "default"@,
            c.url@ == Seq::<char>::empty(),
            c.connections == 16,
            c.chunk_size == 5 * 1024 * 1024,
            c.speed_limit == 0,
            c.user_agent is None,
            c.cookies is None,
    {
        DownloadConfig {
            id: "default".to_owned(),
            url: String::new(),
            filepath: String::new(),
            connections: 16,
            chunk_size: 5 * 1024 * 1024,
            speed_limit: 0,
            user_agent: None,
            cookies: None,
        }
    }
}

/// Snapshot of a transfer's state, emitted to the frontend.
#[derive(Debug, Clone)]
pub struct DownloadProgress {
    pub id: String,
    pub total: u64,
    pub downloaded: u64,
    /// Instantaneous speed in bytes per second.
    pub speed: u64,
    /// Estimated seconds remaining at the current speed.
    pub eta: u64,
    pub connections: u8,
    pub speed_limit: u64,
    /// Phase tag such as "Initializing..." or "Downloading...".
    pub status_text: Option<String>,
    /// Filename discovered from response headers, emitted once.
    pub filename: Option<String>,
}

impl DownloadProgress {
    /// The snapshot a transfer starts from: nothing moved yet.
    pub fn initial(id: String, connections: u8, speed_limit: u64) -> (p: DownloadProgress)
        ensures
            p.id == id,
            p.total == 0,
            p.downloaded == 0,
            p.speed == 0,
            p.eta == 0,
            p.connections == connections,
            p.speed_limit == speed_limit,
            p.status_text is None,
            p.filename is None,
    {
        DownloadProgress {
            id,
            total: 0,
            downloaded: 0,
            speed: 0,
            eta: 0,
            connections,
            speed_limit,
            status_text: None,
            filename: None,
        }
    }
}

/// The kinds of failure a transfer can surface.
#[derive(Debug, Clone)]
pub enum DownloadError {
    /// Transport failure, error status, or timeout.
    Network(String),
    /// Failure writing to the local disk.
    Io(String),
    /// The server does not accept `Range` requests, so parallel or resumed
    /// transfers are impossible.
    NoRangeSupport,
    /// The transfer was stopped by the user or the system.
    Cancelled,
    /// The string could not be understood as a URL.
    InvalidUrl(String),
    /// The server answered with a consent or login page instead of a file.
    AuthRequired,
    /// The external BitTorrent session is not available.
    EngineUnavailable,
}

impl DownloadError {
    /// Whether retrying can help: a consent page, a bad URL or a user
    /// cancellation never resolves by itself, while transport and disk
    /// failures are retried with backoff.
    pub fn is_permanent(&self) -> (r: bool)
        ensures
            r == (self is AuthRequired || self is InvalidUrl || self is Cancelled),
    {
        match self {
            DownloadError::AuthRequired => true,
            DownloadError::InvalidUrl(_) => true,
            DownloadError::Cancelled => true,
            _ => false,
        }
    }

    /// Human-readable description of the failure.
    pub fn message(&self) -> (r: String)
        ensures
            self matches DownloadError::Network(m) ==> r@ == "Network error: "@ + m@,
            self matches DownloadError::Io(m) ==> r@ == "IO error: "@ + m@,
            self matches DownloadError::NoRangeSupport ==> r@
                == "Server does not support range requests"@,
            self matches DownloadError::Cancelled ==> r@ == "Download cancelled"@,
            self matches DownloadError::InvalidUrl(m) ==> r@ == "Invalid URL: "@ + m@,
            self matches DownloadError::AuthRequired ==> r@ == "Login or consent required"@,
            self matches DownloadError::EngineUnavailable ==> r@
                == "Torrent engine unavailable"@,
    {
        match self {
            DownloadError::Network(m) => "Network error: ".to_owned().concat(m.as_str()),
            DownloadError::Io(m) => "IO error: ".to_owned().concat(m.as_str()),
            DownloadError::NoRangeSupport => "Server does not support range requests".to_owned(),
            DownloadError::Cancelled => "Download cancelled".to_owned(),
            DownloadError::InvalidUrl(m) => "Invalid URL: ".to_owned().concat(m.as_str()),
            DownloadError::AuthRequired => "Login or consent required".to_owned(),
            DownloadError::EngineUnavailable => "Torrent engine unavailable".to_owned(),
        }
    }
}

} // verus!
