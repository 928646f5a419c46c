//! The clipboard auto-catch heuristic: which clipboard texts look like
//! something worth offering as a download.

use vstd::prelude::*;
use crate::strutil::{
    char_vec, spec_lower, ascii_lower, str_contains, spec_contains_seq, spec_matches_at,
    matches_at, str_eq,
};

verus! {

/// Whether the string carries any whitespace character.
pub open spec fn spec_has_whitespace(s: Seq<char>) -> bool {
    exists|i: int| 0 <= i < s.len() && crate::filename::spec_is_space(#[trigger] s[i])
}

/// Whether a string looks downloadable: an explicit `http://`, `https://`
/// or `magnet:` prefix (case-insensitive), or a bare host-like string with
/// a dot, no whitespace, and more than three characters.
pub open spec fn spec_is_valid_url(s: Seq<char>) -> bool {
    let l = spec_lower(s);
    ||| spec_matches_at(l, 0, "http://"@)
    ||| spec_matches_at(l, 0, "https://"@)
    ||| spec_matches_at(l, 0, "magnet:"@)
    ||| (spec_contains_seq(s, "."@) && !spec_has_whitespace(s) && s.len() > 3)
}

/// Decides whether a string is a plausible download URL or magnet link.
pub fn is_valid_url(url: &str) -> (r: bool)
    ensures
        r == spec_is_valid_url(url@),
{
    let low = ascii_lower(url);
    let lv = char_vec(low.as_str());
    let ln = lv.len();
    let http = char_vec("http://");
    let https = char_vec("https://");
    let magnet = char_vec("magnet:");
    proof {
        reveal_strlit("http://");
        reveal_strlit("https://");
        reveal_strlit("magnet:");
        assert(http@.len() == 7 && https@.len() == 8 && magnet@.len() == 7);
    }
    if ln >= 7 && matches_at(&lv, 0, &http) {
        return true;
    }
    if ln >= 8 && matches_at(&lv, 0, &https) {
        return true;
    }
    if ln >= 7 && matches_at(&lv, 0, &magnet) {
        return true;
    }
    proof {
        if spec_matches_at(lv@, 0, "http://"@) {
            assert(ln >= 7);
        }
        if spec_matches_at(lv@, 0, "https://"@) {
            assert(ln >= 8);
        }
        if spec_matches_at(lv@, 0, "magnet:"@) {
            assert(ln >= 7);
        }
    }
    let uv = char_vec(url);
    let un = uv.len();
    let mut ws = false;
    let mut i: usize = 0;
    while i < un
        invariant
            un == uv@.len(),
            uv@ == url@,
            i <= un,
            ws == exists|j: int| 0 <= j < i && crate::filename::spec_is_space(#[trigger] url@[j]),
        decreases un - i,
    {
        let c = uv[i];
        if c == ' ' || c == '\t' || c == '\r' || c == '\n' {
            ws = true;
        }
        i = i + 1;
    }
    proof {
        assert(ws == spec_has_whitespace(url@));
    }
    if str_contains(url, ".") && !ws && un > 3 {
        return true;
    }
    false
}

/// The auto-catch decision for one clipboard poll: the text is offered
/// exactly when catching is enabled, the text is non-empty, differs from
/// the last catch, and looks like a URL.
pub fn autocatch_decision(enabled: bool, text: &str, last: &str) -> (r: bool)
    ensures
        r == (enabled && text@.len() > 0 && text@ != last@ && spec_is_valid_url(text@)),
{
    if !enabled {
        return false;
    }
    let tv = char_vec(text);
    if tv.len() == 0 {
        return false;
    }
    if str_eq(text, last) {
        return false;
    }
    is_valid_url(text)
}

} // verus!
