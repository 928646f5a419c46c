//! Download lifecycle statuses, source protocols, and the permitted
//! transitions of the lifecycle state machine.

use vstd::prelude::*;
use crate::strutil::str_eq;

verus! {

/// Lifecycle stage of a download row.
#[derive(Clone, Copy, Debug, PartialEq, Eq, Structural)]
pub enum DownloadStatus {
    /// Waiting in the queue for a free slot.
    Queued,
    /// Actively transferring.
    Downloading,
    /// Halted by the user or the system; resumable.
    Paused,
    /// Finished successfully; terminal.
    Completed,
    /// Failed after retries; resumable by user action.
    Error,
}

/// Transfer protocol of a download row.
#[derive(Clone, Copy, Debug, PartialEq, Eq, Structural)]
pub enum DownloadProtocol {
    /// Direct HTTP(S) link.
    Http,
    /// Magnet link or torrent file.
    Torrent,
    /// Media page handed to the external extractor.
    Video,
}

pub open spec fn spec_status_str(s: DownloadStatus) -> Seq<char> {
    match s {
        DownloadStatus::Queued => "queued"@,
        DownloadStatus::Downloading => "downloading"@,
        DownloadStatus::Paused => "paused"@,
        DownloadStatus::Completed => "completed"@,
        DownloadStatus::Error => "error"@,
    }
}

pub open spec fn spec_status_from_str(s: Seq<char>) -> DownloadStatus {
    if s == "queued"@ {
        DownloadStatus::Queued
    } else if s == "downloading"@ {
        DownloadStatus::Downloading
    } else if s == "paused"@ {
        DownloadStatus::Paused
    } else if s == "completed"@ {
        DownloadStatus::Completed
    } else if s == "error"@ {
        DownloadStatus::Error
    } else {
        DownloadStatus::Queued
    }
}

pub open spec fn spec_protocol_str(p: DownloadProtocol) -> Seq<char> {
    match p {
        DownloadProtocol::Http => "http"@,
        DownloadProtocol::Torrent => "torrent"@,
        DownloadProtocol::Video => "video"@,
    }
}

pub open spec fn spec_protocol_from_str(s: Seq<char>) -> DownloadProtocol {
    if s == "torrent"@ {
        DownloadProtocol::Torrent
    } else if s == "video"@ {
        DownloadProtocol::Video
    } else {
        DownloadProtocol::Http
    }
}

impl DownloadStatus {
    /// Storage form of the status.
    pub fn as_str(&self) -> (r: &'static str)
        ensures
            r@ == spec_status_str(*self),
    {
        match self {
            DownloadStatus::Queued => "queued",
            DownloadStatus::Downloading => "downloading",
            DownloadStatus::Paused => "paused",
            DownloadStatus::Completed => "completed",
            DownloadStatus::Error => "error",
        }
    }

    /// Reads a status back from its storage form; unknown strings fall back
    /// to `Queued`.
    pub fn from_str(s: &str) -> (r: Self)
        ensures
            r == spec_status_from_str(s@),
    {
        if str_eq(s, "queued") {
            DownloadStatus::Queued
        } else if str_eq(s, "downloading") {
            DownloadStatus::Downloading
        } else if str_eq(s, "paused") {
            DownloadStatus::Paused
        } else if str_eq(s, "completed") {
            DownloadStatus::Completed
        } else if str_eq(s, "error") {
            DownloadStatus::Error
        } else {
            DownloadStatus::Queued
        }
    }
}

impl DownloadProtocol {
    /// Storage form of the protocol.
    pub fn as_str(&self) -> (r: &'static str)
        ensures
            r@ == spec_protocol_str(*self),
    {
        match self {
            DownloadProtocol::Http => "http",
            DownloadProtocol::Torrent => "torrent",
            DownloadProtocol::Video => "video",
        }
    }

    /// Reads a protocol back from its storage form; unknown strings fall
    /// back to `Http`.
    pub fn from_str(s: &str) -> (r: Self)
        ensures
            r == spec_protocol_from_str(s@),
    {
        if str_eq(s, "torrent") {
            DownloadProtocol::Torrent
        } else if str_eq(s, "video") {
            DownloadProtocol::Video
        } else {
            DownloadProtocol::Http
        }
    }
}

/// Writing a status and reading it back yields the same status.
pub proof fn lemma_status_str_roundtrip(s: DownloadStatus)
    ensures
        spec_status_from_str(spec_status_str(s)) == s,
{
    reveal_strlit("queued");
    reveal_strlit("downloading");
    reveal_strlit("paused");
    reveal_strlit("completed");
    reveal_strlit("error");
    assert("downloading"@[0] != "queued"@[0]);
    assert("paused"@[0] != "queued"@[0]);
    assert("completed"@[0] != "queued"@[0]);
    assert("completed"@[0] != "paused"@[0]);
    assert("error"@.len() != "queued"@.len());
    assert("error"@.len() != "downloading"@.len());
    assert("error"@.len() != "paused"@.len());
    assert("error"@.len() != "completed"@.len());
}

/// Writing a protocol and reading it back yields the same protocol.
pub proof fn lemma_protocol_str_roundtrip(p: DownloadProtocol)
    ensures
        spec_protocol_from_str(spec_protocol_str(p)) == p,
{
    reveal_strlit("http");
    reveal_strlit("torrent");
    reveal_strlit("video");
    assert("http"@.len() != "torrent"@.len());
    assert("http"@.len() != "video"@.len());
    assert("video"@[0] != "torrent"@[0]);
}

/// The permitted edges of the lifecycle state machine: start, pause (of a
/// running or still-queued row), resume, failure, user retry, and finish.
/// `Completed` is terminal.
pub open spec fn spec_allowed_transition(from: DownloadStatus, to: DownloadStatus) -> bool {
    ||| (from == DownloadStatus::Queued && to == DownloadStatus::Downloading)
    ||| (from == DownloadStatus::Queued && to == DownloadStatus::Paused)
    ||| (from == DownloadStatus::Downloading && to == DownloadStatus::Paused)
    ||| (from == DownloadStatus::Downloading && to == DownloadStatus::Error)
    ||| (from == DownloadStatus::Downloading && to == DownloadStatus::Completed)
    ||| (from == DownloadStatus::Paused && to == DownloadStatus::Downloading)
    ||| (from == DownloadStatus::Error && to == DownloadStatus::Downloading)
}

/// Decides whether the state machine permits moving `from` one status `to`
/// another.
pub fn can_transition(from: DownloadStatus, to: DownloadStatus) -> (r: bool)
    ensures
        r == spec_allowed_transition(from, to),
{
    match (from, to) {
        (DownloadStatus::Queued, DownloadStatus::Downloading) => true,
        (DownloadStatus::Queued, DownloadStatus::Paused) => true,
        (DownloadStatus::Downloading, DownloadStatus::Paused) => true,
        (DownloadStatus::Downloading, DownloadStatus::Error) => true,
        (DownloadStatus::Downloading, DownloadStatus::Completed) => true,
        (DownloadStatus::Paused, DownloadStatus::Downloading) => true,
        (DownloadStatus::Error, DownloadStatus::Downloading) => true,
        _ => false,
    }
}

/// Nothing ever leaves `Completed`: no permitted edge starts there.
pub proof fn lemma_completed_terminal(to: DownloadStatus)
    ensures
        !spec_allowed_transition(DownloadStatus::Completed, to),
{
}

} // verus!
