//! Decisions of the BitTorrent monitor loop. The session engine itself is
//! an external service; each tick hands this module the engine's plain
//! numbers (total bytes, progress bytes, peer count) and takes back the
//! smoothed speed and the status line to show.

use vstd::prelude::*;
use crate::strutil::{fmt_u64_chars, string_of_chars, spec_fmt_u64};

verus! {

/// Speed spikes above this, with no peers soon after a resume, are the
/// verification pass reading from disk, not network transfer.
pub const SPIKE_BYTES_PER_S: u64 = 5 * 1000 * 1000;

/// Per-torrent monitor state: the last observed byte count and the
/// exponentially smoothed speed.
#[derive(Debug, Clone, Copy)]
pub struct TorrentMonitor {
    /// `progress_bytes` at the previous tick.
    pub last_bytes: u64,
    /// Exponentially smoothed speed, bytes per second.
    pub smoothed_speed: u64,
    /// Ticks seen since the torrent (re)started.
    pub ticks: u64,
}

/// The speed one tick reports: the raw delta rate, with disk-verification
/// spikes suppressed, folded into the running average with weight 7/10 for
/// the first five ticks after a resume and 3/10 afterwards.
pub open spec fn spec_tick_speed(m: TorrentMonitor, raw: int, peer_count: u64) -> int {
    let picked = if raw > SPIKE_BYTES_PER_S && peer_count == 0 && m.ticks < 10 {
        m.smoothed_speed as int
    } else {
        raw
    };
    if m.ticks < 5 {
        (7 * picked + 3 * m.smoothed_speed) / 10
    } else {
        (3 * picked + 7 * m.smoothed_speed) / 10
    }
}

impl TorrentMonitor {
    /// A monitor for a torrent that starts (or resumes) now.
    pub fn new() -> (r: TorrentMonitor)
        ensures
            r.last_bytes == 0,
            r.smoothed_speed == 0,
            r.ticks == 0,
    {
        TorrentMonitor { last_bytes: 0, smoothed_speed: 0, ticks: 0 }
    }

    /// One monitor tick: folds the engine's byte count over the elapsed
    /// window into the smoothed speed and advances the tick count.
    pub fn tick(&mut self, progress_bytes: u64, elapsed_ms: u64, peer_count: u64) -> (speed: u64)
        ensures
            ({
                let delta = if progress_bytes >= old(self).last_bytes {
                    progress_bytes - old(self).last_bytes
                } else {
                    0
                };
                let raw = if elapsed_ms == 0 {
                    0
                } else {
                    let q = (delta * 1000) / (elapsed_ms as int);
                    if q > u64::MAX {
                        u64::MAX as int
                    } else {
                        q
                    }
                };
                speed == spec_tick_speed(*old(self), raw, peer_count)
            }),
            final(self).smoothed_speed == speed,
            final(self).last_bytes == progress_bytes,
            final(self).ticks == if old(self).ticks < u64::MAX {
                old(self).ticks + 1
            } else {
                old(self).ticks as int
            },
    {
        let delta = if progress_bytes >= self.last_bytes {
            progress_bytes - self.last_bytes
        } else {
            0
        };
        let raw = crate::engine::compute_speed(delta, elapsed_ms);
        let picked = if raw > SPIKE_BYTES_PER_S && peer_count == 0 && self.ticks < 10 {
            self.smoothed_speed
        } else {
            raw
        };
        proof {
            assert(7 * (picked as int) + 3 * (self.smoothed_speed as int) <= u128::MAX)
                by (nonlinear_arith)
                requires
                    picked <= u64::MAX,
                    self.smoothed_speed <= u64::MAX,
            ;
        }
        let mixed: u128 = if self.ticks < 5 {
            (7 * picked as u128 + 3 * self.smoothed_speed as u128) / 10
        } else {
            (3 * picked as u128 + 7 * self.smoothed_speed as u128) / 10
        };
        proof {
            assert((7 * (picked as int) + 3 * (self.smoothed_speed as int)) / 10 <= u64::MAX)
                by (nonlinear_arith)
                requires
                    picked <= u64::MAX,
                    self.smoothed_speed <= u64::MAX,
            ;
            assert((3 * (picked as int) + 7 * (self.smoothed_speed as int)) / 10 <= u64::MAX)
                by (nonlinear_arith)
                requires
                    picked <= u64::MAX,
                    self.smoothed_speed <= u64::MAX,
            ;
        }
        let speed: u64 = mixed as u64;
        self.smoothed_speed = speed;
        self.last_bytes = progress_bytes;
        if self.ticks < u64::MAX {
            self.ticks = self.ticks + 1;
        }
        speed
    }
}

/// The ghost-cleanup decision before adding a magnet: whether the session
/// already knows a torrent with this info hash, which must then be removed
/// (keeping its files) before the add.
pub fn has_ghost(session_hashes: &Vec<String>, info_hash: &str) -> (r: bool)
    ensures
        r == crate::path::spec_taken(session_hashes@, info_hash@),
{
    crate::path::is_taken(session_hashes, info_hash)
}

/// The status line one monitor tick shows.
pub open spec fn spec_torrent_status(
    total_bytes: u64,
    stored_paused: bool,
    peer_count: u64,
) -> Seq<char> {
    if total_bytes == 0 {
        "Fetching Metadata..."@
    } else if stored_paused {
        "Paused"@
    } else if peer_count == 0 {
        "Connecting..."@
    } else {
        "Downloading ("@ + spec_fmt_u64(peer_count as int) + " peers)"@
    }
}

/// The status text for a torrent tick: metadata discovery, the paused
/// state confirmed from the store, or the live peer count.
pub fn torrent_status(total_bytes: u64, stored_paused: bool, peer_count: u64) -> (r: String)
    ensures
        r@ == spec_torrent_status(total_bytes, stored_paused, peer_count),
{
    if total_bytes == 0 {
        return "Fetching Metadata...".to_owned();
    }
    if stored_paused {
        return "Paused".to_owned();
    }
    if peer_count == 0 {
        return "Connecting...".to_owned();
    }
    let mut out: Vec<char> = Vec::new();
    out.push('D');
    out.push('o');
    out.push('w');
    out.push('n');
    out.push('l');
    out.push('o');
    out.push('a');
    out.push('d');
    out.push('i');
    out.push('n');
    out.push('g');
    out.push(' ');
    out.push('(');
    let ghost pre = out@;
    proof {
        reveal_strlit("Downloading (");
        assert(pre =~= "Downloading ("@);
    }
    let digits = fmt_u64_chars(peer_count);
    let dn = digits.len();
    let mut i: usize = 0;
    while i < dn
        invariant
            dn == digits@.len(),
            i <= dn,
            out@ =~= pre + digits@.subrange(0, i as int),
        decreases dn - i,
    {
        out.push(digits[i]);
        i = i + 1;
    }
    out.push(' ');
    out.push('p');
    out.push('e');
    out.push('e');
    out.push('r');
    out.push('s');
    out.push(')');
    proof {
        reveal_strlit(" peers)");
        assert(out@ =~= "Downloading ("@ + spec_fmt_u64(peer_count as int) + " peers)"@);
    }
    string_of_chars(&out)
}

} // verus!
