//! Filenames discovered from a response: the RFC 5987 `filename*` form,
//! the quoted `filename=` form, the URL's last path segment as fallback,
//! and uniform sanitizing of control and reserved characters.

use vstd::prelude::*;
use vstd::utf8::{valid_utf8, decode_utf8};
use vstd::string::StringSliceAdditionalSpecFns;
use crate::strutil::{char_vec, string_of_chars, find_sub, spec_matches_at};

verus! {

/// Characters a filename may not carry: ASCII and Latin-1 control
/// characters, and the separators and wildcards reserved by filesystems.
pub open spec fn spec_reserved_char(c: char) -> bool {
    ||| (c as u32) < 0x20
    ||| 0x7f <= (c as u32) <= 0x9f
    ||| c == '<'
    ||| c == '>'
    ||| c == ':'
    ||| c == '"'
    ||| c == '/'
    ||| c == '\\'
    ||| c == '|'
    ||| c == '?'
    ||| c == '*'
}

pub open spec fn spec_sanitize_char(c: char) -> char {
    if spec_reserved_char(c) {
        '_'
    } else {
        c
    }
}

/// The sanitized form of a name: reserved characters replaced by `_`, and
/// the empty name replaced by `download`.
pub open spec fn spec_sanitized(s: Seq<char>) -> Seq<char> {
    if s.len() == 0 {
        "download"@
    } else {
        s.map_values(|c: char| spec_sanitize_char(c))
    }
}

/// Replaces control characters and filesystem-reserved characters by `_`;
/// an empty name becomes `download`.
pub fn sanitize_filename(name: &str) -> (r: String)
    ensures
        r@ == spec_sanitized(name@),
{
    let v = char_vec(name);
    sanitize_chars(&v)
}

/// `sanitize_filename` on an already-split character vector.
pub fn sanitize_chars(v: &Vec<char>) -> (r: String)
    ensures
        r@ == spec_sanitized(v@),
{
    let n = v.len();
    if n == 0 {
        return "download".to_owned();
    }
    let mut out: Vec<char> = Vec::new();
    let mut i: usize = 0;
    while i < n
        invariant
            n == v@.len(),
            n > 0,
            i <= n,
            out@ =~= v@.map_values(|c: char| spec_sanitize_char(c)).subrange(0, i as int),
        decreases n - i,
    {
        let c = v[i];
        let cu: u32 = c as u32;
        let bad = cu < 0x20 || (0x7f <= cu && cu <= 0x9f) || c == '<' || c == '>' || c == ':' || c
            == '"' || c == '/' || c == '\\' || c == '|' || c == '?' || c == '*';
        if bad {
            out.push('_');
        } else {
            out.push(c);
        }
        i = i + 1;
        proof {
            assert(out@ =~= v@.map_values(|c: char| spec_sanitize_char(c)).subrange(0, i as int));
        }
    }
    proof {
        assert(out@ =~= spec_sanitized(v@));
    }
    string_of_chars(&out)
}

/// Whether a byte is an ASCII hex digit.
pub open spec fn spec_is_hex(b: u8) -> bool {
    (48 <= b <= 57) || (65 <= b <= 70) || (97 <= b <= 102)
}

pub open spec fn spec_hex_val(b: u8) -> int {
    if 48 <= b <= 57 {
        b - 48
    } else if 65 <= b <= 70 {
        b - 55
    } else {
        b - 87
    }
}

/// Percent-decoding on bytes: every `%` followed by two hex digits becomes
/// the byte they denote; anything else is kept as it is.
pub open spec fn spec_pct_decode(s: Seq<u8>) -> Seq<u8>
    decreases s.len(),
{
    if s.len() == 0 {
        s
    } else if s.first() == 37 && s.len() >= 3 && spec_is_hex(s[1]) && spec_is_hex(s[2]) {
        seq![(spec_hex_val(s[1]) * 16 + spec_hex_val(s[2])) as u8] + spec_pct_decode(s.skip(3))
    } else {
        seq![s.first()] + spec_pct_decode(s.skip(1))
    }
}

/// Relies on `percent_encoding::percent_decode` and its `decode_utf8`: each
/// `%XY` hex pair becomes one byte, everything else passes through, and the
/// result is accepted only when it is well-formed UTF-8.
#[verifier::external_body]
pub fn percent_decode_utf8(s: &str) -> (r: Option<String>)
    ensures
        match r {
            Some(t) => valid_utf8(spec_pct_decode(s.spec_bytes())) && t@ == decode_utf8(
                spec_pct_decode(s.spec_bytes()),
            ),
            None => !valid_utf8(spec_pct_decode(s.spec_bytes())),
        },
{
    percent_encoding::percent_decode(s.as_bytes()).decode_utf8().ok().map(|c| c.into_owned())
}

/// Index of the first occurrence of `c` in `s`, or the length of `s`.
pub open spec fn spec_idx_of(s: Seq<char>, c: char) -> int
    decreases s.len(),
{
    if s.len() == 0 {
        0
    } else if s.first() == c {
        0
    } else {
        1 + spec_idx_of(s.drop_first(), c)
    }
}

pub proof fn lemma_idx_of_at(s: Seq<char>, c: char, k: int)
    requires
        0 <= k <= s.len(),
        forall|j: int| 0 <= j < k ==> s[j] != c,
        k == s.len() || s[k] == c,
    ensures
        spec_idx_of(s, c) == k,
    decreases k,
{
    if s.len() == 0 {
    } else if k == 0 {
    } else {
        assert(s.first() != c);
        let t = s.drop_first();
        assert(forall|j: int| 0 <= j < k - 1 ==> t[j] == s[j + 1] && t[j] != c);
        if k < s.len() {
            assert(t[k - 1] == s[k]);
        }
        lemma_idx_of_at(t, c, k - 1);
    }
}

/// The prefix of `s` before its first `c` (all of `s` when absent).
pub open spec fn spec_before(s: Seq<char>, c: char) -> Seq<char> {
    s.take(spec_idx_of(s, c))
}

/// The first-occurrence index lies within the string (or just past it).
pub proof fn lemma_idx_of_le_len(s: Seq<char>, c: char)
    ensures
        0 <= spec_idx_of(s, c) <= s.len(),
    decreases s.len(),
{
    if s.len() > 0 && s.first() != c {
        lemma_idx_of_le_len(s.drop_first(), c);
    }
}

/// When the index is inside the string, it points at `c`.
pub proof fn lemma_idx_of_found(s: Seq<char>, c: char)
    requires
        spec_idx_of(s, c) < s.len(),
    ensures
        0 <= spec_idx_of(s, c),
        s[spec_idx_of(s, c)] == c,
    decreases s.len(),
{
    lemma_idx_of_le_len(s, c);
    if s.len() > 0 && s.first() != c {
        lemma_idx_of_le_len(s.drop_first(), c);
        lemma_idx_of_found(s.drop_first(), c);
    }
}

/// Before the first-occurrence index there is no `c`.
pub proof fn lemma_idx_of_none_before(s: Seq<char>, c: char, j: int)
    requires
        0 <= j < spec_idx_of(s, c),
    ensures
        s[j] != c,
    decreases s.len(),
{
    lemma_idx_of_le_len(s, c);
    if j > 0 {
        lemma_idx_of_none_before(s.drop_first(), c, j - 1);
    }
}

/// The prefix before the first occurrence of `c`.
pub(crate) fn before_char(v: &Vec<char>, c: char) -> (r: Vec<char>)
    ensures
        r@ == spec_before(v@, c),
{
    let n = v.len();
    let mut out: Vec<char> = Vec::new();
    let mut i: usize = 0;
    while i < n
        invariant
            n == v@.len(),
            i <= n,
            forall|j: int| 0 <= j < i ==> v@[j] != c,
            out@ =~= v@.take(i as int),
        decreases n - i,
    {
        if v[i] == c {
            proof {
                lemma_idx_of_at(v@, c, i as int);
            }
            return out;
        }
        out.push(v[i]);
        i = i + 1;
    }
    proof {
        lemma_idx_of_at(v@, c, n as int);
        assert(out@ =~= v@.take(n as int));
    }
    out
}

pub open spec fn spec_is_space(c: char) -> bool {
    c == ' ' || c == '\t' || c == '\r' || c == '\n'
}

/// `s` without leading characters satisfying `drop_space` (or equal to a
/// given character, for quote stripping).
pub open spec fn spec_trim_start(s: Seq<char>, sp: spec_fn(char) -> bool) -> Seq<char>
    decreases s.len(),
{
    if s.len() > 0 && sp(s.first()) {
        spec_trim_start(s.drop_first(), sp)
    } else {
        s
    }
}

pub open spec fn spec_trim_end(s: Seq<char>, sp: spec_fn(char) -> bool) -> Seq<char>
    decreases s.len(),
{
    if s.len() > 0 && sp(s.last()) {
        spec_trim_end(s.drop_last(), sp)
    } else {
        s
    }
}

pub open spec fn spec_trim(s: Seq<char>, sp: spec_fn(char) -> bool) -> Seq<char> {
    spec_trim_end(spec_trim_start(s, sp), sp)
}

proof fn lemma_trim_start_at(s: Seq<char>, sp: spec_fn(char) -> bool, k: int)
    requires
        0 <= k <= s.len(),
        forall|j: int| 0 <= j < k ==> sp(s[j]),
        k == s.len() || !sp(s[k]),
    ensures
        spec_trim_start(s, sp) == s.skip(k),
    decreases k,
{
    if k == 0 {
        assert(s.skip(0) =~= s);
    } else {
        assert(sp(s.first()));
        let t = s.drop_first();
        assert(forall|j: int| 0 <= j < k - 1 ==> t[j] == s[j + 1] && sp(t[j]));
        if k < s.len() {
            assert(t[k - 1] == s[k]);
        }
        lemma_trim_start_at(t, sp, k - 1);
        assert(t.skip(k - 1) =~= s.skip(k));
    }
}

proof fn lemma_trim_end_at(s: Seq<char>, sp: spec_fn(char) -> bool, k: int)
    requires
        0 <= k <= s.len(),
        forall|j: int| k <= j < s.len() ==> sp(s[j]),
        k == 0 || !sp(s[k - 1]),
    ensures
        spec_trim_end(s, sp) == s.take(k),
    decreases s.len() - k,
{
    if k == s.len() {
        assert(s.take(k) =~= s);
    } else {
        assert(sp(s.last()));
        let t = s.drop_last();
        assert(t =~= s.take(s.len() - 1));
        lemma_trim_end_at(t, sp, k);
        assert(t.take(k) =~= s.take(k));
    }
}

/// Trims leading and trailing whitespace.
fn trim_spaces(v: &Vec<char>) -> (r: Vec<char>)
    ensures
        r@ == spec_trim(v@, |c: char| spec_is_space(c)),
{
    trim_pred(v, ' ', true)
}

/// Trims every leading and trailing occurrence of one character.
fn trim_char(v: &Vec<char>, c: char) -> (r: Vec<char>)
    ensures
        r@ == spec_trim(v@, |cc: char| cc == c),
{
    trim_pred(v, c, false)
}

/// Shared trimming: of whitespace (when `spaces`), or of one character.
fn trim_pred(v: &Vec<char>, c: char, spaces: bool) -> (r: Vec<char>)
    ensures
        spaces ==> r@ == spec_trim(v@, |cc: char| spec_is_space(cc)),
        !spaces ==> r@ == spec_trim(v@, |cc: char| cc == c),
{
    let ghost sp: spec_fn(char) -> bool = if spaces {
        |cc: char| spec_is_space(cc)
    } else {
        |cc: char| cc == c
    };
    proof {
        assert(forall|cc: char|
            #[trigger] sp(cc) == if spaces {
                spec_is_space(cc)
            } else {
                cc == c
            });
    }
    let n = v.len();
    let mut lo: usize = 0;
    while lo < n
        invariant
            forall|cc: char|
                #[trigger] sp(cc) == if spaces {
                    spec_is_space(cc)
                } else {
                    cc == c
                },
            n == v@.len(),
            lo <= n,
            forall|j: int| 0 <= j < lo ==> sp(v@[j]),
        ensures
            lo <= n,
            forall|j: int| 0 <= j < lo ==> sp(v@[j]),
            lo == n || !sp(v@[lo as int]),
        decreases n - lo,
    {
        let ch = v[lo];
        let is_sp = if spaces {
            ch == ' ' || ch == '\t' || ch == '\r' || ch == '\n'
        } else {
            ch == c
        };
        if !is_sp {
            break;
        }
        lo = lo + 1;
    }
    let mut hi: usize = n;
    while hi > lo
        invariant
            forall|cc: char|
                #[trigger] sp(cc) == if spaces {
                    spec_is_space(cc)
                } else {
                    cc == c
                },
            lo <= hi <= n == v@.len(),
            forall|j: int| hi <= j < n ==> sp(v@[j]),
        ensures
            lo <= hi <= n,
            forall|j: int| hi <= j < n ==> sp(v@[j]),
            hi == lo || !sp(v@[hi - 1]),
        decreases hi,
    {
        let ch = v[hi - 1];
        let is_sp = if spaces {
            ch == ' ' || ch == '\t' || ch == '\r' || ch == '\n'
        } else {
            ch == c
        };
        if !is_sp {
            break;
        }
        hi = hi - 1;
    }
    let mut out: Vec<char> = Vec::new();
    let mut i: usize = lo;
    while i < hi
        invariant
            lo <= i <= hi <= n == v@.len(),
            out@ =~= v@.subrange(lo as int, i as int),
        decreases hi - i,
    {
        out.push(v[i]);
        i = i + 1;
    }
    proof {
        if lo < n {
            assert(!sp(v@[lo as int]));
        }
        lemma_trim_start_at(v@, sp, lo as int);
        let mid = v@.skip(lo as int);
        assert(forall|j: int|
            hi - lo <= j < mid.len() ==> mid[j] == v@[j + lo] && sp(mid[j]));
        if hi > lo {
            assert(!sp(mid[hi - lo - 1]));
        }
        lemma_trim_end_at(mid, sp, hi - lo as int);
        assert(out@ =~= mid.take(hi - lo as int));
    }
    out
}

/// The segment of `s` after its last `c` (all of `s` when absent).
pub open spec fn spec_after_last(s: Seq<char>, c: char) -> Seq<char>
    decreases s.len(),
{
    if s.len() == 0 {
        s
    } else if s.last() == c {
        Seq::empty()
    } else {
        spec_after_last(s.drop_last(), c).push(s.last())
    }
}

proof fn lemma_after_last_at(s: Seq<char>, c: char, k: int)
    requires
        0 <= k <= s.len(),
        forall|j: int| k <= j < s.len() ==> s[j] != c,
        k == 0 || s[k - 1] == c,
    ensures
        spec_after_last(s, c) == s.skip(k),
    decreases s.len() - k,
{
    if k == s.len() {
        if k > 0 {
        }
        assert(s.skip(k) =~= Seq::<char>::empty());
        if s.len() > 0 {
            assert(s.last() == c);
        }
    } else {
        assert(s.last() != c);
        let t = s.drop_last();
        assert(forall|j: int| k <= j < t.len() ==> t[j] == s[j] && t[j] != c);
        lemma_after_last_at(t, c, k);
        assert(t.skip(k).push(s.last()) =~= s.skip(k));
    }
}

/// The segment after the last occurrence of `c`.
pub(crate) fn after_last_char(v: &Vec<char>, c: char) -> (r: Vec<char>)
    ensures
        r@ == spec_after_last(v@, c),
{
    let n = v.len();
    let mut k: usize = n;
    while k > 0
        invariant
            k <= n == v@.len(),
            forall|j: int| k <= j < n ==> v@[j] != c,
        ensures
            k <= n,
            forall|j: int| k <= j < n ==> v@[j] != c,
            k == 0 || v@[k - 1] == c,
        decreases k,
    {
        if v[k - 1] == c {
            break;
        }
        k = k - 1;
    }
    proof {
        lemma_after_last_at(v@, c, k as int);
    }
    let mut out: Vec<char> = Vec::new();
    let mut i: usize = k;
    while i < n
        invariant
            k <= i <= n == v@.len(),
            out@ =~= v@.subrange(k as int, i as int),
        decreases n - i,
    {
        out.push(v[i]);
        i = i + 1;
    }
    proof {
        assert(out@ =~= v@.skip(k as int));
    }
    out
}

/// When `c` occurs, the segment after its last occurrence is a proper
/// suffix.
pub proof fn lemma_after_last_shorter(s: Seq<char>, c: char)
    requires
        exists|i: int| 0 <= i < s.len() && s[i] == c,
    ensures
        spec_after_last(s, c).len() < s.len(),
    decreases s.len(),
{
    let w = choose|i: int| 0 <= i < s.len() && s[i] == c;
    if s.last() == c {
    } else {
        assert(w < s.len() - 1);
        let t = s.drop_last();
        assert(t[w] == s[w]);
        lemma_after_last_shorter(t, c);
    }
}

/// What a percent-encoded UTF-8 segment decodes to, or the segment itself
/// when the decoded bytes are not valid UTF-8.
pub open spec fn spec_decoded_or_self(bytes: Seq<u8>, s: Seq<char>) -> Seq<char> {
    if valid_utf8(spec_pct_decode(bytes)) {
        decode_utf8(spec_pct_decode(bytes))
    } else {
        s
    }
}

/// The filename drawn from the URL alone: the last non-empty path segment
/// before any query or fragment, percent-decoded and sanitized; `download`
/// when the URL has no usable segment.
pub open spec fn spec_url_filename(url: Seq<char>) -> Seq<char> {
    let path = spec_before(spec_before(url, '?'), '#');
    let trimmed = spec_trim_end(path, |c: char| c == '/');
    if trimmed.len() == 0 {
        "download"@
    } else {
        let seg = spec_after_last(trimmed, '/');
        spec_sanitized(spec_decoded_or_self(vstd::utf8::encode_utf8(seg), seg))
    }
}

/// The name the RFC 5987 `filename*=` form of a Content-Disposition header
/// yields, when the header carries one with the `charset'lang'value` quote
/// and the value decodes: what follows the last quote of the first such
/// parameter, percent-decoded and sanitized. Without a quote the form is
/// not readable and the plain `filename=` is tried instead.
pub open spec fn spec_cd_star_result(h: Seq<char>) -> Option<Seq<char>> {
    if crate::strutil::spec_contains_seq(h, "filename*="@) {
        let rest = h.skip(crate::strutil::spec_first_match(h, "filename*="@) + 10);
        let part = spec_trim(spec_before(rest, ';'), |c: char| spec_is_space(c));
        if exists|i: int| 0 <= i < part.len() && part[i] == '\'' {
            let name = spec_after_last(part, '\'');
            if name.len() > 0 && valid_utf8(spec_pct_decode(vstd::utf8::encode_utf8(name))) {
                Some(spec_sanitized(decode_utf8(spec_pct_decode(vstd::utf8::encode_utf8(name)))))
            } else {
                None
            }
        } else {
            None
        }
    } else {
        None
    }
}

/// The name the plain `filename=` form yields, when present and non-empty
/// after unquoting: percent-decoded when the decoded bytes are UTF-8, else
/// taken as written; sanitized either way.
pub open spec fn spec_cd_plain_result(h: Seq<char>) -> Option<Seq<char>> {
    if crate::strutil::spec_contains_seq(h, "filename="@) {
        let rest = h.skip(crate::strutil::spec_first_match(h, "filename="@) + 9);
        let part = spec_trim(spec_before(rest, ';'), |c: char| spec_is_space(c));
        let unq = spec_trim(spec_trim(part, |c: char| c == '"'), |c: char| c == '\'');
        if unq.len() > 0 {
            if valid_utf8(spec_pct_decode(vstd::utf8::encode_utf8(unq))) {
                Some(spec_sanitized(decode_utf8(spec_pct_decode(vstd::utf8::encode_utf8(unq)))))
            } else {
                Some(spec_sanitized(unq))
            }
        } else {
            None
        }
    } else {
        None
    }
}

/// The extracted filename: the `filename*=` form first, then `filename=`,
/// then the URL's last path segment.
pub open spec fn spec_extract_filename(url: Seq<char>, cd: Option<Seq<char>>) -> Seq<char> {
    match cd {
        None => spec_url_filename(url),
        Some(h) => match spec_cd_star_result(h) {
            Some(n) => n,
            None => match spec_cd_plain_result(h) {
                Some(n) => n,
                None => spec_url_filename(url),
            },
        },
    }
}

/// Extracts a probable filename: the RFC 5987 `filename*=` value of the
/// Content-Disposition header when present and decodable, else its plain
/// `filename=` value, else the URL's last non-empty path segment; the
/// result is always sanitized.
pub fn extract_filename(url: &str, content_disposition: Option<&str>) -> (r: String)
    ensures
        r@ == spec_extract_filename(
            url@,
            match content_disposition {
                Some(cd) => Some(cd@),
                None => None,
            },
        ),
        r@.len() > 0,
        forall|i: int| 0 <= i < r@.len() ==> !spec_reserved_char(r@[i]),
{
    match content_disposition {
        Some(cd) => {
            let cdv = char_vec(cd);
            let cdn = cdv.len();
            let star = char_vec("filename*=");
            match find_sub(&cdv, &star) {
                Some(pos) => {
                    proof {
                        reveal_strlit("filename*=");
                        assert(star@.len() == 10);
                        assert(crate::strutil::spec_matches_at(cd@, pos as int, "filename*="@));
                        assert(crate::strutil::spec_contains_seq(cd@, "filename*="@));
                        crate::strutil::lemma_first_match_is(cd@, "filename*="@, pos as int);
                    }
                    // charset'lang'encoded-name, up to the next ';'.
                    let rest = suffix_chars(&cdv, pos + 10);
                    let part = trim_spaces(&before_char(&rest, ';'));
                    let has_quote = match crate::path::last_index_of(&part, '\'') {
                        Some(q) => {
                            proof {
                                assert(part@[q as int] == '\'');
                            }
                            true
                        }
                        None => false,
                    };
                    let name = after_last_char(&part, '\'');
                    if has_quote && name.len() > 0 {
                        let name_str = string_of_chars(&name);
                        match percent_decode_utf8(name_str.as_str()) {
                            Some(decoded) => {
                                let dv = char_vec(decoded.as_str());
                                let out = sanitize_chars(&dv);
                                proof {
                                    lemma_sanitized_clean(dv@);
                                    assert(spec_cd_star_result(cd@) == Some(out@));
                                }
                                return out;
                            }
                            None => {
                                assert(spec_cd_star_result(cd@) is None);
                            }
                        }
                    } else {
                        assert(spec_cd_star_result(cd@) is None);
                    }
                }
                None => {
                    proof {
                        crate::strutil::lemma_no_match_no_contains(cd@, "filename*="@);
                        assert(spec_cd_star_result(cd@) is None);
                    }
                }
            }
            let plain = char_vec("filename=");
            match find_sub(&cdv, &plain) {
                Some(pos) => {
                    proof {
                        reveal_strlit("filename=");
                        assert(plain@.len() == 9);
                        assert(crate::strutil::spec_matches_at(cd@, pos as int, "filename="@));
                        assert(crate::strutil::spec_contains_seq(cd@, "filename="@));
                        crate::strutil::lemma_first_match_is(cd@, "filename="@, pos as int);
                    }
                    let rest = suffix_chars(&cdv, pos + 9);
                    let part = trim_spaces(&before_char(&rest, ';'));
                    let unq = trim_char(&trim_char(&part, '"'), '\'');
                    if unq.len() > 0 {
                        let unq_str = string_of_chars(&unq);
                        match percent_decode_utf8(unq_str.as_str()) {
                            Some(decoded) => {
                                let dv = char_vec(decoded.as_str());
                                let out = sanitize_chars(&dv);
                                proof {
                                    lemma_sanitized_clean(dv@);
                                    assert(spec_cd_plain_result(cd@) == Some(out@));
                                }
                                return out;
                            }
                            None => {
                                let out = sanitize_chars(&unq);
                                proof {
                                    lemma_sanitized_clean(unq@);
                                    assert(spec_cd_plain_result(cd@) == Some(out@));
                                }
                                return out;
                            }
                        }
                    } else {
                        assert(spec_cd_plain_result(cd@) is None);
                    }
                }
                None => {
                    proof {
                        crate::strutil::lemma_no_match_no_contains(cd@, "filename="@);
                        assert(spec_cd_plain_result(cd@) is None);
                    }
                }
            }
            url_filename(url)
        }
        None => url_filename(url),
    }
}

/// The probe's filename discovery: the extracted name, unless it is one of
/// the generic placeholders a server hands out (`download`,
/// `download_file`, `uc`), which are suppressed rather than stored.
pub fn probe_filename(url: &str, content_disposition: Option<&str>) -> (r: Option<String>)
    ensures
        ({
            let e = spec_extract_filename(
                url@,
                match content_disposition {
                    Some(cd) => Some(cd@),
                    None => None,
                },
            );
            match r {
                Some(n) => n@ == e && e != "download"@ && e != "download_file"@ && e != "uc"@,
                None => e == "download"@ || e == "download_file"@ || e == "uc"@,
            }
        }),
{
    let name = extract_filename(url, content_disposition);
    if crate::strutil::str_eq(name.as_str(), "download") || crate::strutil::str_eq(
        name.as_str(),
        "download_file",
    ) || crate::strutil::str_eq(name.as_str(), "uc") {
        None
    } else {
        Some(name)
    }
}

/// The filename drawn from the URL alone (see `spec_url_filename`).
pub fn url_filename(url: &str) -> (r: String)
    ensures
        r@ == spec_url_filename(url@),
        r@.len() > 0,
        forall|i: int| 0 <= i < r@.len() ==> !spec_reserved_char(r@[i]),
{
    let uv = char_vec(url);
    let path = before_char(&before_char(&uv, '?'), '#');
    let trimmed = trim_end_slashes(&path);
    if trimmed.len() == 0 {
        let out = "download".to_owned();
        proof {
            reveal_strlit("download");
            assert(forall|i: int| 0 <= i < "download"@.len() ==> !spec_reserved_char("download"@[i]));
        }
        return out;
    }
    let seg = after_last_char(&trimmed, '/');
    let seg_str = string_of_chars(&seg);
    let picked = match percent_decode_utf8(seg_str.as_str()) {
        Some(decoded) => char_vec(decoded.as_str()),
        None => seg,
    };
    let out = sanitize_chars(&picked);
    proof {
        lemma_sanitized_clean(picked@);
    }
    out
}

/// Trailing slashes removed.
fn trim_end_slashes(v: &Vec<char>) -> (r: Vec<char>)
    ensures
        r@ == spec_trim_end(v@, |c: char| c == '/'),
{
    let ghost sp: spec_fn(char) -> bool = |c: char| c == '/';
    let n = v.len();
    let mut hi: usize = n;
    while hi > 0
        invariant
            hi <= n == v@.len(),
            forall|j: int| hi <= j < n ==> v@[j] == '/',
        ensures
            hi <= n,
            forall|j: int| hi <= j < n ==> v@[j] == '/',
            hi == 0 || v@[hi - 1] != '/',
        decreases hi,
    {
        if v[hi - 1] != '/' {
            break;
        }
        hi = hi - 1;
    }
    proof {
        assert(forall|j: int| hi <= j < n ==> sp(v@[j]));
        lemma_trim_end_at(v@, sp, hi as int);
    }
    let mut out: Vec<char> = Vec::new();
    let mut i: usize = 0;
    while i < hi
        invariant
            i <= hi <= n == v@.len(),
            out@ =~= v@.subrange(0, i as int),
        decreases hi - i,
    {
        out.push(v[i]);
        i = i + 1;
    }
    proof {
        assert(out@ =~= v@.take(hi as int));
    }
    out
}

/// The characters of `v` from position `at` on.
pub(crate) fn suffix_chars(v: &Vec<char>, at: usize) -> (r: Vec<char>)
    requires
        at <= v@.len(),
    ensures
        r@ == v@.skip(at as int),
{
    let n = v.len();
    let mut out: Vec<char> = Vec::new();
    let mut i: usize = at;
    while i < n
        invariant
            at <= i <= n == v@.len(),
            out@ =~= v@.subrange(at as int, i as int),
        decreases n - i,
    {
        out.push(v[i]);
        i = i + 1;
    }
    proof {
        assert(out@ =~= v@.skip(at as int));
    }
    out
}

/// A sanitized name is non-empty and free of reserved characters.
proof fn lemma_sanitized_clean(s: Seq<char>)
    ensures
        spec_sanitized(s).len() > 0,
        forall|i: int| 0 <= i < spec_sanitized(s).len() ==> !spec_reserved_char(spec_sanitized(s)[i]),
{
    reveal_strlit("download");
    if s.len() == 0 {
        assert(forall|i: int|
            0 <= i < "download"@.len() ==> !spec_reserved_char("download"@[i]));
    } else {
        let m = s.map_values(|c: char| spec_sanitize_char(c));
        assert(('_' as u32) == 95);
        assert(!spec_reserved_char('_'));
        assert(forall|i: int| 0 <= i < m.len() ==> m[i] == spec_sanitize_char(s[i]));
    }
}


/// The extension's category bucket, on the lowercased extension.
pub open spec fn spec_category_of_ext(ext: Seq<char>) -> Seq<char> {
    if ext == "mp4"@ || ext == "mkv"@ || ext == "avi"@ || ext == "mov"@ || ext == "webm"@ || ext
        == "flv"@ || ext == "wmv"@ || ext == "m4v"@ {
        "Video"@
    } else if ext == "mp3"@ || ext == "wav"@ || ext == "flac"@ || ext == "aac"@ || ext == "ogg"@
        || ext == "m4a"@ || ext == "wma"@ {
        "Audio"@
    } else if ext == "zip"@ || ext == "rar"@ || ext == "7z"@ || ext == "tar"@ || ext == "gz"@
        || ext == "bz2"@ || ext == "iso"@ {
        "Compressed"@
    } else if ext == "exe"@ || ext == "msi"@ || ext == "app"@ || ext == "dmg"@ || ext == "deb"@
        || ext == "rpm"@ {
        "Software"@
    } else if ext == "pdf"@ || ext == "doc"@ || ext == "docx"@ || ext == "xls"@ || ext == "xlsx"@
        || ext == "ppt"@ || ext == "pptx"@ || ext == "txt"@ || ext == "rtf"@ || ext == "epub"@ {
        "Documents"@
    } else {
        "Other"@
    }
}

/// The category bucket of a filename: decided by its extension (the
/// lowercased characters after the last dot), `Other` without one.
pub open spec fn spec_category(name: Seq<char>) -> Seq<char> {
    if crate::strutil::spec_contains_seq(name, "."@) {
        spec_category_of_ext(crate::strutil::spec_lower(spec_after_last(name, '.')))
    } else {
        "Other"@
    }
}

/// Derives the organizational category of a filename from its extension.
pub fn category_for_filename(name: &str) -> (r: String)
    ensures
        r@ == spec_category(name@),
{
    let nv = char_vec(name);
    let dot = char_vec(".");
    proof {
        reveal_strlit(".");
        assert(dot@.len() == 1);
    }
    match find_sub(&nv, &dot) {
        Some(_) => {}
        None => {
            proof {
                crate::strutil::lemma_no_match_no_contains(name@, "."@);
            }
            return "Other".to_owned();
        }
    }
    proof {
        let w = choose|i: int| crate::strutil::spec_matches_at(name@, i, "."@);
        assert(name@.subrange(w, w + 1) =~= seq![name@[w]]);
        assert(crate::strutil::spec_contains_seq(name@, "."@));
    }
    let ext_raw = after_last_char(&nv, '.');
    let ext = crate::strutil::ascii_lower(string_of_chars(&ext_raw).as_str());
    let e = ext.as_str();
    let bucket = if crate::strutil::str_eq(e, "mp4") || crate::strutil::str_eq(e, "mkv")
        || crate::strutil::str_eq(e, "avi") || crate::strutil::str_eq(e, "mov")
        || crate::strutil::str_eq(e, "webm") || crate::strutil::str_eq(e, "flv")
        || crate::strutil::str_eq(e, "wmv") || crate::strutil::str_eq(e, "m4v") {
        "Video"
    } else if crate::strutil::str_eq(e, "mp3") || crate::strutil::str_eq(e, "wav")
        || crate::strutil::str_eq(e, "flac") || crate::strutil::str_eq(e, "aac")
        || crate::strutil::str_eq(e, "ogg") || crate::strutil::str_eq(e, "m4a")
        || crate::strutil::str_eq(e, "wma") {
        "Audio"
    } else if crate::strutil::str_eq(e, "zip") || crate::strutil::str_eq(e, "rar")
        || crate::strutil::str_eq(e, "7z") || crate::strutil::str_eq(e, "tar")
        || crate::strutil::str_eq(e, "gz") || crate::strutil::str_eq(e, "bz2")
        || crate::strutil::str_eq(e, "iso") {
        "Compressed"
    } else if crate::strutil::str_eq(e, "exe") || crate::strutil::str_eq(e, "msi")
        || crate::strutil::str_eq(e, "app") || crate::strutil::str_eq(e, "dmg")
        || crate::strutil::str_eq(e, "deb") || crate::strutil::str_eq(e, "rpm") {
        "Software"
    } else if crate::strutil::str_eq(e, "pdf") || crate::strutil::str_eq(e, "doc")
        || crate::strutil::str_eq(e, "docx") || crate::strutil::str_eq(e, "xls")
        || crate::strutil::str_eq(e, "xlsx") || crate::strutil::str_eq(e, "ppt")
        || crate::strutil::str_eq(e, "pptx") || crate::strutil::str_eq(e, "txt")
        || crate::strutil::str_eq(e, "rtf") || crate::strutil::str_eq(e, "epub") {
        "Documents"
    } else {
        "Other"
    };
    bucket.to_owned()
}

} // verus!
