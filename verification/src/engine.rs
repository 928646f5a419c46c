//! Decision logic of the HTTP transfer engine: probe interpretation and the
//! fallback to a single stream, worker-count scaling under a speed limit,
//! retry backoff, the `Range` header, progress arithmetic, and the refusal
//! of consent pages served in place of files.

use vstd::prelude::*;
use crate::strutil::{str_contains, spec_contains_seq, fmt_u64_chars, string_of_chars, spec_fmt_u64};

verus! {

/// Retries per chunk before the transfer fails.
pub const MAX_RETRIES: u32 = 10;

/// Bytes per second a worker should at least have under a speed limit.
pub const MIN_SPEED_PER_WORKER: u64 = 512 * 1024;

/// Seconds remaining at the current speed: `(total - downloaded) / speed`
/// when `speed > 0`, and 0 otherwise.
pub open spec fn spec_eta(total: u64, downloaded: u64, speed: u64) -> int {
    if speed > 0 {
        if total >= downloaded {
            (total - downloaded) / speed as int
        } else {
            0
        }
    } else {
        0
    }
}

/// Estimated seconds until completion, as emitted in progress snapshots.
pub fn compute_eta(total: u64, downloaded: u64, speed: u64) -> (eta: u64)
    ensures
        eta == spec_eta(total, downloaded, speed),
{
    if speed > 0 {
        if total >= downloaded {
            (total - downloaded) / speed
        } else {
            0
        }
    } else {
        0
    }
}

/// Instantaneous speed over a measuring window: bytes per second from a
/// byte delta and elapsed milliseconds, saturating at `u64::MAX`.
pub fn compute_speed(diff_bytes: u64, elapsed_ms: u64) -> (speed: u64)
    ensures
        elapsed_ms == 0 ==> speed == 0,
        elapsed_ms > 0 ==> speed == ({
            let q = (diff_bytes * 1000) / (elapsed_ms as int);
            if q > u64::MAX {
                u64::MAX as int
            } else {
                q
            }
        }),
{
    if elapsed_ms == 0 {
        return 0;
    }
    proof {
        assert((diff_bytes as int) * 1000 <= u128::MAX) by (nonlinear_arith)
            requires
                diff_bytes <= u64::MAX,
        ;
    }
    let v: u128 = (diff_bytes as u128) * 1000 / (elapsed_ms as u128);
    if v > u64::MAX as u128 {
        u64::MAX
    } else {
        v as u64
    }
}

/// Whether the server's probe answer allows segmented transfers: an
/// `Accept-Ranges: bytes` header, or any `Content-Range` answer.
pub fn range_supported(accept_ranges: Option<&str>, has_content_range: bool) -> (r: bool)
    ensures
        r == ({
            (match accept_ranges {
                Some(v) => v@ == "bytes"@,
                None => false,
            }) || has_content_range
        }),
{
    let from_header = match accept_ranges {
        Some(v) => crate::strutil::str_eq(v, "bytes"),
        None => false,
    };
    from_header || has_content_range
}

/// Whether the transfer must run as a single stream: one connection asked
/// for, no range support, or an unknown size.
pub fn single_stream_required(connections: u8, supports_range: bool, total_size: u64) -> (r: bool)
    ensures
        r == (connections <= 1 || !supports_range || total_size == 0),
{
    connections <= 1 || !supports_range || total_size == 0
}

/// Worker count for one download: all requested connections, scaled down
/// under a speed limit so each worker keeps at least
/// `MIN_SPEED_PER_WORKER` of budget, and never below one worker.
pub fn target_workers(connections: u8, speed_limit: u64) -> (r: u8)
    requires
        connections >= 1,
    ensures
        speed_limit == 0 ==> r == connections,
        speed_limit > 0 ==> ({
            let budget = speed_limit / MIN_SPEED_PER_WORKER;
            let capped = if budget >= 1 {
                budget
            } else {
                1
            };
            r == if connections <= capped {
                connections as int
            } else {
                capped as int
            }
        }),
        1 <= r <= connections,
{
    if speed_limit == 0 {
        return connections;
    }
    let budget: u64 = speed_limit / MIN_SPEED_PER_WORKER;
    let capped: u64 = if budget >= 1 {
        budget
    } else {
        1
    };
    if (connections as u64) <= capped {
        connections
    } else {
        capped as u8
    }
}

/// Powers of two, for exponential backoff.
pub open spec fn spec_pow2(n: nat) -> int
    decreases n,
{
    if n == 0 {
        1
    } else {
        2 * spec_pow2((n - 1) as nat)
    }
}

/// Backoff before retry `attempt` (counted from 1): exponential from one
/// second, doubling, capped at thirty seconds.
pub fn backoff_ms(attempt: u32) -> (r: u64)
    requires
        1 <= attempt,
    ensures
        r == if spec_pow2((attempt - 1) as nat) * 1000 <= 30000 {
            spec_pow2((attempt - 1) as nat) * 1000
        } else {
            30000int
        },
{
    let mut p: u64 = 1;
    let mut i: u32 = 1;
    while i < attempt
        invariant
            1 <= i <= attempt,
            p == spec_pow2((i - 1) as nat),
            1 <= p <= 64,
        decreases attempt - i,
    {
        if p > 32 {
            proof {
                lemma_pow2_mono((i - 1) as nat, (attempt - 1) as nat);
            }
            return 30000;
        }
        p = p * 2;
        i = i + 1;
    }
    if p <= 30 {
        p * 1000
    } else {
        30000
    }
}

proof fn lemma_pow2_pos(n: nat)
    ensures
        spec_pow2(n) >= 1,
    decreases n,
{
    if n > 0 {
        lemma_pow2_pos((n - 1) as nat);
    }
}

proof fn lemma_pow2_mono(a: nat, b: nat)
    requires
        a <= b,
    ensures
        spec_pow2(a) <= spec_pow2(b),
    decreases b,
{
    if a < b {
        lemma_pow2_mono(a, (b - 1) as nat);
        lemma_pow2_pos((b - 1) as nat);
    }
}

/// The value of the `Range` request header for a chunk: resuming at
/// `start`, ending at the inclusive offset `end`.
pub fn range_header_value(start: u64, end: u64) -> (r: String)
    ensures
        r@ == "bytes="@ + spec_fmt_u64(start as int) + "-"@ + spec_fmt_u64(end as int),
{
    let mut out: Vec<char> = Vec::new();
    out.push('b');
    out.push('y');
    out.push('t');
    out.push('e');
    out.push('s');
    out.push('=');
    let ghost pre = out@;
    proof {
        reveal_strlit("bytes=");
        assert(pre =~= "bytes="@);
    }
    let sv = fmt_u64_chars(start);
    let sn = sv.len();
    let mut i: usize = 0;
    while i < sn
        invariant
            sn == sv@.len(),
            i <= sn,
            out@ =~= pre + sv@.subrange(0, i as int),
        decreases sn - i,
    {
        out.push(sv[i]);
        i = i + 1;
    }
    out.push('-');
    let ghost pre2 = out@;
    proof {
        reveal_strlit("-");
        assert(pre2 =~= "bytes="@ + spec_fmt_u64(start as int) + "-"@);
    }
    let ev = fmt_u64_chars(end);
    let en = ev.len();
    let mut j: usize = 0;
    while j < en
        invariant
            en == ev@.len(),
            j <= en,
            out@ =~= pre2 + ev@.subrange(0, j as int),
        decreases en - j,
    {
        out.push(ev[j]);
        j = j + 1;
    }
    proof {
        assert(out@ =~= "bytes="@ + spec_fmt_u64(start as int) + "-"@ + spec_fmt_u64(end as int));
    }
    string_of_chars(&out)
}

/// Whether a response must be refused as a consent or login page: an HTML
/// body where a file was expected, from a host known to interpose one.
pub fn is_blocked_html(content_type: &str, url: &str) -> (r: bool)
    ensures
        r == (spec_contains_seq(content_type@, "text/html"@) && spec_contains_seq(
            url@,
            "drive.google.com"@,
        )),
{
    str_contains(content_type, "text/html") && str_contains(url, "drive.google.com")
}

/// The rounded tenths used when a speed is shown with one decimal.
pub open spec fn spec_speed_tenths(bps: u64, unit: int) -> int {
    (bps * 10 + unit / 2) / unit
}

/// Human-readable bytes-per-second: plain bytes below one KiB, one decimal
/// for KiB and MiB ranges, two decimals for GiB, rounding half up.
pub open spec fn spec_format_speed(bps: u64) -> Seq<char> {
    if bps == 0 {
        "0 B/s"@
    } else if bps < 1024 {
        spec_fmt_u64(bps as int) + " B/s"@
    } else if bps < 1048576 {
        let t = spec_speed_tenths(bps, 1024);
        spec_fmt_u64(t / 10) + "."@ + spec_fmt_u64(t % 10) + " KB/s"@
    } else if bps < 1073741824 {
        let t = spec_speed_tenths(bps, 1048576);
        spec_fmt_u64(t / 10) + "."@ + spec_fmt_u64(t % 10) + " MB/s"@
    } else {
        let h = (bps * 100 + 536870912) / 1073741824;
        spec_fmt_u64(h / 100) + "."@ + spec_fmt_u64(h / 10 % 10) + spec_fmt_u64(h % 10) + " GB/s"@
    }
}

/// Formats a transfer speed for display, for instance in the tray summary.
pub fn format_speed(bps: u64) -> (r: String)
    ensures
        r@ == spec_format_speed(bps),
{
    if bps == 0 {
        proof {
            reveal_strlit("0 B/s");
        }
        return "0 B/s".to_owned();
    }
    let mut out: Vec<char> = Vec::new();
    if bps < 1024 {
        push_all(&mut out, &fmt_u64_chars(bps));
        push_suffix(&mut out, 0);
        proof {
            assert(out@ =~= spec_format_speed(bps));
        }
        return string_of_chars(&out);
    }
    if bps < 1048576 {
        let t: u64 = (bps * 10 + 512) / 1024;
        push_all(&mut out, &fmt_u64_chars(t / 10));
        out.push('.');
        proof {
            reveal_strlit(".");
        }
        push_all(&mut out, &fmt_u64_chars(t % 10));
        push_suffix(&mut out, 1);
        proof {
            assert(out@ =~= spec_format_speed(bps));
        }
        return string_of_chars(&out);
    }
    if bps < 1073741824 {
        let t: u64 = (bps * 10 + 524288) / 1048576;
        push_all(&mut out, &fmt_u64_chars(t / 10));
        out.push('.');
        proof {
            reveal_strlit(".");
        }
        push_all(&mut out, &fmt_u64_chars(t % 10));
        push_suffix(&mut out, 2);
        proof {
            assert(out@ =~= spec_format_speed(bps));
        }
        return string_of_chars(&out);
    }
    proof {
        assert((bps as int) * 100 + 536870912 <= u128::MAX) by (nonlinear_arith)
            requires
                bps <= u64::MAX,
        ;
    }
    let h128: u128 = ((bps as u128) * 100 + 536870912) / 1073741824;
    proof {
        let x = (bps as int) * 100 + 536870912;
        assert(x < 0x800000000000000000) by (nonlinear_arith)
            requires
                x == (bps as int) * 100 + 536870912,
                bps <= u64::MAX,
        ;
        vstd::arithmetic::div_mod::lemma_fundamental_div_mod(x, 1073741824);
        vstd::arithmetic::div_mod::lemma_mod_bound(x, 1073741824);
        assert(x / 1073741824 < 0x20000000000) by (nonlinear_arith)
            requires
                x == 1073741824 * (x / 1073741824) + x % 1073741824,
                0 <= x % 1073741824 < 1073741824,
                x < 0x800000000000000000,
        ;
    }
    let h: u64 = h128 as u64;
    push_all(&mut out, &fmt_u64_chars(h / 100));
    out.push('.');
    proof {
        reveal_strlit(".");
    }
    push_all(&mut out, &fmt_u64_chars(h / 10 % 10));
    push_all(&mut out, &fmt_u64_chars(h % 10));
    push_suffix(&mut out, 3);
    proof {
        assert(out@ =~= spec_format_speed(bps));
    }
    string_of_chars(&out)
}

/// Appends all characters of `src`.
fn push_all(out: &mut Vec<char>, src: &Vec<char>)
    ensures
        final(out)@ == old(out)@ + src@,
{
    let n = src.len();
    let ghost pre = out@;
    let mut i: usize = 0;
    while i < n
        invariant
            n == src@.len(),
            i <= n,
            out@ =~= pre + src@.subrange(0, i as int),
        decreases n - i,
    {
        out.push(src[i]);
        i = i + 1;
    }
    proof {
        assert(out@ =~= pre + src@);
    }
}

/// Appends one of the unit suffixes.
fn push_suffix(out: &mut Vec<char>, unit: u8)
    requires
        unit <= 3,
    ensures
        unit == 0 ==> final(out)@ == old(out)@ + " B/s"@,
        unit == 1 ==> final(out)@ == old(out)@ + " KB/s"@,
        unit == 2 ==> final(out)@ == old(out)@ + " MB/s"@,
        unit == 3 ==> final(out)@ == old(out)@ + " GB/s"@,
{
    let ghost pre = out@;
    out.push(' ');
    if unit == 1 {
        out.push('K');
    } else if unit == 2 {
        out.push('M');
    } else if unit == 3 {
        out.push('G');
    }
    out.push('B');
    out.push('/');
    out.push('s');
    proof {
        reveal_strlit(" B/s");
        reveal_strlit(" KB/s");
        reveal_strlit(" MB/s");
        reveal_strlit(" GB/s");
        if unit == 0 {
            assert(out@ =~= pre + " B/s"@);
        } else if unit == 1 {
            assert(out@ =~= pre + " KB/s"@);
        } else if unit == 2 {
            assert(out@ =~= pre + " MB/s"@);
        } else {
            assert(out@ =~= pre + " GB/s"@);
        }
    }
}

/// Whether a progress snapshot may be emitted now: at most one emission per
/// 200 ms window.
pub fn should_emit(now_ms: u64, last_emit_ms: u64) -> (r: bool)
    ensures
        r == (now_ms >= last_emit_ms && now_ms - last_emit_ms > 200),
{
    now_ms >= last_emit_ms && now_ms - last_emit_ms > 200
}


/// The Drive viewer-page marker that admission rewrites.
pub open spec fn spec_drive_marker() -> Seq<char> {
    "drive.google.com/file/d/"@
}

/// A normalized request URL: a Drive viewer page with a readable file id
/// becomes the direct-download form with the consent token; every other
/// URL stands as it is.
pub open spec fn spec_normalized_url(url: Seq<char>) -> Seq<char> {
    if spec_contains_seq(url, spec_drive_marker()) {
        let after = url.skip(
            crate::strutil::spec_first_match(url, spec_drive_marker()) + spec_drive_marker().len(),
        );
        let fid = crate::filename::spec_before(crate::filename::spec_before(after, '/'), '?');
        if fid.len() > 0 {
            "https://drive.google.com/uc?export=download&id="@ + fid + "&confirm=t"@
        } else {
            url
        }
    } else {
        url
    }
}

/// Normalizes a request URL before admission: Drive viewer pages turn into
/// their direct-download form.
pub fn normalize_url(url: &str) -> (r: String)
    ensures
        r@ == spec_normalized_url(url@),
{
    let uv = crate::strutil::char_vec(url);
    let un = uv.len();
    let marker = crate::strutil::char_vec("drive.google.com/file/d/");
    let ml = marker.len();
    let pos = match crate::strutil::find_sub(&uv, &marker) {
        Some(p) => p,
        None => {
            proof {
                crate::strutil::lemma_no_match_no_contains(url@, spec_drive_marker());
            }
            return url.to_owned();
        }
    };
    proof {
        assert(crate::strutil::spec_matches_at(url@, pos as int, spec_drive_marker()));
        assert(crate::strutil::spec_contains_seq(url@, spec_drive_marker()));
        crate::strutil::lemma_first_match_is(url@, spec_drive_marker(), pos as int);
    }
    let after = crate::filename::suffix_chars(&uv, pos + ml);
    let fid = crate::filename::before_char(&crate::filename::before_char(&after, '/'), '?');
    let fl = fid.len();
    if fl == 0 {
        return url.to_owned();
    }
    let mut out = crate::strutil::char_vec("https://drive.google.com/uc?export=download&id=");
    let ghost pre = out@;
    let mut i: usize = 0;
    while i < fl
        invariant
            fl == fid@.len(),
            i <= fl,
            out@ =~= pre + fid@.subrange(0, i as int),
        decreases fl - i,
    {
        out.push(fid[i]);
        i = i + 1;
    }
    let tail = crate::strutil::char_vec("&confirm=t");
    let tl = tail.len();
    let ghost pre2 = out@;
    let mut j: usize = 0;
    while j < tl
        invariant
            tl == tail@.len(),
            j <= tl,
            out@ =~= pre2 + tail@.subrange(0, j as int),
        decreases tl - j,
    {
        out.push(tail[j]);
        j = j + 1;
    }
    proof {
        assert(out@ =~= "https://drive.google.com/uc?export=download&id="@ + fid@
            + "&confirm=t"@);
    }
    string_of_chars(&out)
}


} // verus!
