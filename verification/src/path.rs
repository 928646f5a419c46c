//! Collision-free target paths: when a planned path is already taken on
//! disk or in the registry, a counter ` (n)` is inserted before the file
//! extension, with the smallest `n >= 1` that is free.

use vstd::prelude::*;
use crate::strutil::{
    char_vec, string_of_chars, parse_u64_chars, spec_fmt_u64, lemma_fmt_u64_digits,
};

verus! {

/// `i` is the index where an extension starts minus one: the last `.` of
/// the path, with no path separator after it.
pub open spec fn spec_is_split_dot(s: Seq<char>, i: int) -> bool {
    &&& 0 <= i < s.len()
    &&& s[i] == '.'
    &&& forall|j: int| i < j < s.len() ==> s[j] != '.' && s[j] != '/' && s[j] != '\\'
}

/// Where a path splits into stem and extension: at the last `.` that comes
/// after the last path separator, else at the end.
pub open spec fn spec_split_point(s: Seq<char>) -> int {
    if exists|i: int| spec_is_split_dot(s, i) {
        choose|i: int| spec_is_split_dot(s, i)
    } else {
        s.len() as int
    }
}

proof fn lemma_split_dot_unique(s: Seq<char>, i1: int, i2: int)
    requires
        spec_is_split_dot(s, i1),
        spec_is_split_dot(s, i2),
    ensures
        i1 == i2,
{
    if i1 < i2 {
        assert(s[i2] == '.');
    } else if i2 < i1 {
        assert(s[i1] == '.');
    }
}

/// The path with ` (n)` inserted between stem and extension.
pub open spec fn spec_with_suffix(stem: Seq<char>, ext: Seq<char>, n: u64) -> Seq<char> {
    stem + " ("@ + spec_fmt_u64(n as int) + ")"@ + ext
}

/// Whether `p` is among the taken paths.
pub open spec fn spec_taken(taken: Seq<String>, p: Seq<char>) -> bool {
    exists|i: int| 0 <= i < taken.len() && taken[i]@ == p
}

/// Whether one of the first `upto` taken paths has the suffix form
/// `stem (m) ext`.
pub open spec fn spec_suffix_taken_upto(
    taken: Seq<String>,
    stem: Seq<char>,
    ext: Seq<char>,
    upto: int,
    m: u64,
) -> bool {
    exists|j: int| 0 <= j < upto && taken[j]@ == spec_with_suffix(stem, ext, m)
}

/// True exactly when `p` is one of the taken paths.
pub fn is_taken(taken: &Vec<String>, p: &str) -> (r: bool)
    ensures
        r == spec_taken(taken@, p@),
{
    let n = taken.len();
    let mut i: usize = 0;
    while i < n
        invariant
            n == taken@.len(),
            i <= n,
            forall|j: int| 0 <= j < i ==> taken@[j]@ != p@,
        decreases n - i,
    {
        if crate::strutil::str_eq(taken[i].as_str(), p) {
            assert(taken@[i as int]@ == p@);
            return true;
        }
        i = i + 1;
    }
    false
}

/// Index of the last occurrence of `c`, if any.
pub fn last_index_of(v: &Vec<char>, c: char) -> (r: Option<usize>)
    ensures
        match r {
            Some(i) => i < v@.len() && v@[i as int] == c && forall|j: int|
                i < j < v@.len() ==> v@[j] != c,
            None => forall|j: int| 0 <= j < v@.len() ==> v@[j] != c,
        },
{
    let n = v.len();
    let mut i: usize = n;
    while i > 0
        invariant
            n == v@.len(),
            i <= n,
            forall|j: int| i <= j < n ==> v@[j] != c,
        decreases i,
    {
        i = i - 1;
        if v[i] == c {
            return Some(i);
        }
    }
    None
}

/// True exactly when `v` continues with `pat` at position `at`.
fn chars_match_at(v: &Vec<char>, at: usize, pat: &Vec<char>) -> (r: bool)
    requires
        at + pat@.len() <= v@.len(),
    ensures
        r == (v@.subrange(at as int, at + pat@.len()) == pat@),
{
    let m = pat.len();
    let vn = v.len();
    let mut k: usize = 0;
    while k < m
        invariant
            vn == v@.len(),
            at + m <= vn,
            m == pat@.len(),
            k <= m,
            forall|j: int| 0 <= j < k ==> v@[at + j] == pat@[j],
        decreases m - k,
    {
        if v[at + k] != pat[k] {
            assert(v@.subrange(at as int, at + pat@.len())[k as int] == v@[at + k]);
            return false;
        }
        k = k + 1;
    }
    assert(v@.subrange(at as int, at + pat@.len()) =~= pat@);
    true
}

/// The length and layout of a suffix form: `stem ( digits ) ext`.
proof fn lemma_suffix_form_layout(stem: Seq<char>, ext: Seq<char>, m: u64)
    ensures
        ({
            let t = spec_with_suffix(stem, ext, m);
            let f = spec_fmt_u64(m as int);
            &&& f.len() >= 1
            &&& t.len() == stem.len() + 2 + f.len() + 1 + ext.len()
            &&& t.subrange(0, stem.len() as int) == stem
            &&& t.subrange(stem.len() as int, (stem.len() + 2) as int) == " ("@
            &&& t.subrange((stem.len() + 2) as int, (stem.len() + 2 + f.len()) as int) == f
            &&& t[(stem.len() + 2 + f.len()) as int] == ')'
            &&& t.subrange((t.len() - ext.len()) as int, t.len() as int) == ext
        }),
{
    lemma_fmt_u64_digits(m as int);
    reveal_strlit(" (");
    reveal_strlit(")");
    let t = spec_with_suffix(stem, ext, m);
    let f = spec_fmt_u64(m as int);
    assert(" ("@.len() == 2);
    assert(")"@.len() == 1);
    assert(t.subrange(0, stem.len() as int) =~= stem);
    assert(t.subrange(stem.len() as int, (stem.len() + 2) as int) =~= " ("@);
    assert(t.subrange((stem.len() + 2) as int, (stem.len() + 2 + f.len()) as int) =~= f);
    assert(t[(stem.len() + 2 + f.len()) as int] == ")"@[0]);
    assert(")"@[0] == ')');
    assert(t.subrange((t.len() - ext.len()) as int, t.len() as int) =~= ext);
}

/// The counter of a path of the exact form `stem (digits) ext` with
/// canonical digits: sound (a value comes only from a true suffix form)
/// and complete (every true suffix form yields at least its counter).
fn suffix_counter(t: &String, stem: &Vec<char>, ext: &Vec<char>) -> (r: Option<u64>)
    requires
        stem@.len() + ext@.len() + 4 <= usize::MAX,
    ensures
        forall|m: u64|
            t@ == spec_with_suffix(stem@, ext@, m) ==> r is Some && m <= r.unwrap(),
        r matches Some(v) ==> t@ == spec_with_suffix(stem@, ext@, v),
{
    let tv = char_vec(t.as_str());
    let sl = stem.len();
    let el = ext.len();
    let n = tv.len();
    if n < sl + el + 4 {
        proof {
            assert forall|m: u64| t@ != spec_with_suffix(stem@, ext@, m) by {
                lemma_suffix_form_layout(stem@, ext@, m);
            }
        }
        return None;
    }
    if !chars_match_at(&tv, 0, stem) {
        proof {
            assert forall|m: u64| t@ != spec_with_suffix(stem@, ext@, m) by {
                lemma_suffix_form_layout(stem@, ext@, m);
            }
        }
        return None;
    }
    let mut open_pat: Vec<char> = Vec::new();
    open_pat.push(' ');
    open_pat.push('(');
    proof {
        reveal_strlit(" (");
        assert(open_pat@ =~= " ("@);
    }
    if !chars_match_at(&tv, sl, &open_pat) {
        proof {
            assert forall|m: u64| t@ != spec_with_suffix(stem@, ext@, m) by {
                lemma_suffix_form_layout(stem@, ext@, m);
            }
        }
        return None;
    }
    if !chars_match_at(&tv, n - el, ext) {
        proof {
            assert forall|m: u64| t@ != spec_with_suffix(stem@, ext@, m) by {
                lemma_suffix_form_layout(stem@, ext@, m);
            }
        }
        return None;
    }
    let close_at = n - el - 1;
    if tv[close_at] != ')' {
        proof {
            assert forall|m: u64| t@ != spec_with_suffix(stem@, ext@, m) by {
                lemma_suffix_form_layout(stem@, ext@, m);
            }
        }
        return None;
    }
    let mut digits: Vec<char> = Vec::new();
    let mut k: usize = sl + 2;
    while k < close_at
        invariant
            sl + 2 <= k <= close_at < n == tv@.len(),
            digits@ =~= tv@.subrange(sl + 2, k as int),
        decreases close_at - k,
    {
        digits.push(tv[k]);
        k = k + 1;
        proof {
            assert(digits@ =~= tv@.subrange(sl + 2, k as int));
        }
    }
    // A leading zero cannot come from the canonical rendering of any
    // counter, so such digits name no suffix form.
    let dl = digits.len();
    if dl == 0 || (dl > 1 && digits[0] == '0') {
        proof {
            assert forall|m: u64| t@ != spec_with_suffix(stem@, ext@, m) by {
                lemma_suffix_form_layout(stem@, ext@, m);
                lemma_fmt_u64_digits(m as int);
                if t@ == spec_with_suffix(stem@, ext@, m) {
                    assert(digits@ == spec_fmt_u64(m as int));
                }
            }
        }
        return None;
    }
    let parsed = parse_u64_chars(&digits);
    proof {
        assert forall|m: u64|
            t@ == spec_with_suffix(stem@, ext@, m) implies parsed is Some && m <= (match parsed {
            Some(v) => v as int,
            None => -1,
        }) by {
            lemma_suffix_form_layout(stem@, ext@, m);
            assert(digits@ == spec_fmt_u64(m as int));
            crate::strutil::lemma_fmt_parse_roundtrip(m);
        }
        if parsed is Some {
            let v = parsed.unwrap();
            crate::strutil::lemma_canonical_digits(digits@);
            assert(digits@ == spec_fmt_u64(v as int));
            lemma_suffix_assembly(tv@, stem@, ext@, digits@, sl as int, close_at as int);
            assert(t@ == spec_with_suffix(stem@, ext@, v));
        }
    }
    parsed
}

/// A string that matches the suffix pattern piecewise is the suffix form
/// itself.
proof fn lemma_suffix_assembly(
    tv: Seq<char>,
    stem: Seq<char>,
    ext: Seq<char>,
    digits: Seq<char>,
    sl: int,
    close_at: int,
)
    requires
        sl == stem.len(),
        sl + 2 <= close_at,
        close_at == tv.len() - ext.len() - 1,
        close_at < tv.len(),
        tv.subrange(0, sl) == stem,
        tv.subrange(sl, sl + 2) == " ("@,
        digits == tv.subrange(sl + 2, close_at),
        tv[close_at] == ')',
        tv.subrange(tv.len() - ext.len(), tv.len() as int) == ext,
    ensures
        tv == stem + " ("@ + digits + ")"@ + ext,
{
    reveal_strlit(" (");
    reveal_strlit(")");
    let rhs = stem + " ("@ + digits + ")"@ + ext;
    assert(" ("@.len() == 2);
    assert(")"@.len() == 1);
    assert(")"@[0] == ')');
    assert(rhs.len() == tv.len());
    assert forall|k: int| 0 <= k < tv.len() implies tv[k] == rhs[k] by {
        if k < sl {
            assert(tv.subrange(0, sl)[k] == tv[k]);
            assert(rhs[k] == stem[k]);
        } else if k < sl + 2 {
            assert(tv.subrange(sl, sl + 2)[k - sl] == tv[k]);
            assert(rhs[k] == " ("@[k - sl]);
        } else if k < close_at {
            assert(tv.subrange(sl + 2, close_at)[k - sl - 2] == tv[k]);
            assert(rhs[k] == digits[k - sl - 2]);
        } else if k == close_at {
            assert(rhs[k] == ")"@[0]);
        } else {
            assert(tv.subrange(tv.len() - ext.len(), tv.len() as int)[k - (tv.len()
                - ext.len())] == tv[k]);
            assert(rhs[k] == ext[k - (tv.len() - ext.len())]);
        }
    }
    assert(tv =~= rhs);
}

/// Appends ` (n)` between stem and extension.
fn build_with_suffix(stem: &Vec<char>, ext: &Vec<char>, n: u64) -> (r: String)
    ensures
        r@ == spec_with_suffix(stem@, ext@, n),
{
    let mut out: Vec<char> = Vec::new();
    let mut i: usize = 0;
    let sl = stem.len();
    while i < sl
        invariant
            sl == stem@.len(),
            i <= sl,
            out@ =~= stem@.subrange(0, i as int),
        decreases sl - i,
    {
        out.push(stem[i]);
        i = i + 1;
    }
    assert(out@ =~= stem@);
    out.push(' ');
    out.push('(');
    let digits = crate::strutil::fmt_u64_chars(n);
    let dl = digits.len();
    let ghost mid = out@;
    let mut k: usize = 0;
    while k < dl
        invariant
            dl == digits@.len(),
            k <= dl,
            out@ =~= mid + digits@.subrange(0, k as int),
        decreases dl - k,
    {
        out.push(digits[k]);
        k = k + 1;
    }
    assert(out@ =~= mid + digits@);
    out.push(')');
    let el = ext.len();
    let ghost mid2 = out@;
    let mut j: usize = 0;
    while j < el
        invariant
            el == ext@.len(),
            j <= el,
            out@ =~= mid2 + ext@.subrange(0, j as int),
        decreases el - j,
    {
        out.push(ext[j]);
        j = j + 1;
    }
    proof {
        reveal_strlit(" (");
        reveal_strlit(")");
        assert(" ("@.len() == 2 && " ("@[0] == ' ' && " ("@[1] == '(');
        assert(")"@.len() == 1 && ")"@[0] == ')');
        assert(out@ =~= mid2 + ext@);
        assert(out@ =~= spec_with_suffix(stem@, ext@, n));
    }
    string_of_chars(&out)
}

/// What it means for `p` to be the right unique path for `base` against the
/// taken set: free, equal to `base` when `base` itself is free, and
/// otherwise carrying the smallest free counter.
pub open spec fn spec_resolved_path_ok(base: Seq<char>, taken: Seq<String>, p: Seq<char>) -> bool {
    let stem = base.take(spec_split_point(base));
    let ext = base.skip(spec_split_point(base));
    &&& !spec_taken(taken, p)
    &&& (!spec_taken(taken, base) ==> p == base)
    &&& (spec_taken(taken, base) ==> exists|k: u64|
        1 <= k && p == spec_with_suffix(stem, ext, k) && forall|m: u64|
            1 <= m < k ==> spec_taken(taken, spec_with_suffix(stem, ext, m)))
}

/// Whether a path is absolute: rooted at a separator, or at a drive
/// letter.
pub open spec fn spec_is_absolute(s: Seq<char>) -> bool {
    s.len() > 0 && (s[0] == '/' || s[0] == '\\' || (s.len() >= 2 && s[1] == ':'))
}

/// Where a target path lands: an absolute request stands as it is; a bare
/// or relative name is placed, by its final segment, under the configured
/// download directory when one is set, else under the fallback directory.
pub open spec fn spec_resolved_download_path(
    provided: Seq<char>,
    configured: Seq<char>,
    fallback_dir: Seq<char>,
) -> Seq<char> {
    if spec_is_absolute(provided) {
        provided
    } else {
        let base = if configured.len() > 0 {
            configured
        } else {
            fallback_dir
        };
        let file = crate::filename::spec_after_last(
            crate::filename::spec_after_last(provided, '/'),
            '\\',
        );
        if base.len() > 0 && (base.last() == '/' || base.last() == '\\') {
            base + file
        } else {
            base + seq!['/'] + file
        }
    }
}

/// Resolves the target path of a request against the configured download
/// directory, falling back to the given directory when none is set.
pub fn resolve_download_path(provided: &str, configured: &str, fallback_dir: &str) -> (r: String)
    ensures
        r@ == spec_resolved_download_path(provided@, configured@, fallback_dir@),
{
    let pv = char_vec(provided);
    let pn = pv.len();
    if pn > 0 {
        let first = pv[0];
        let drive = pn >= 2 && pv[1] == ':';
        if first == '/' || first == '\\' || drive {
            return provided.to_owned();
        }
    }
    let cfg = char_vec(configured);
    let base = if cfg.len() > 0 {
        cfg
    } else {
        char_vec(fallback_dir)
    };
    let seg1 = crate::filename::after_last_char(&pv, '/');
    let file = crate::filename::after_last_char(&seg1, '\\');
    let mut out: Vec<char> = Vec::new();
    let bn = base.len();
    let mut i: usize = 0;
    while i < bn
        invariant
            bn == base@.len(),
            i <= bn,
            out@ =~= base@.subrange(0, i as int),
        decreases bn - i,
    {
        out.push(base[i]);
        i = i + 1;
    }
    proof {
        assert(out@ =~= base@);
    }
    let needs_sep = if bn > 0 {
        let last = base[bn - 1];
        !(last == '/' || last == '\\')
    } else {
        true
    };
    if needs_sep {
        out.push('/');
    }
    let ghost pre = out@;
    let fnn = file.len();
    let mut j: usize = 0;
    while j < fnn
        invariant
            fnn == file@.len(),
            j <= fnn,
            out@ =~= pre + file@.subrange(0, j as int),
        decreases fnn - j,
    {
        out.push(file[j]);
        j = j + 1;
    }
    proof {
        assert(out@ =~= pre + file@);
        if bn > 0 && (base@.last() == '/' || base@.last() == '\\') {
            assert(out@ =~= base@ + file@);
        } else {
            assert(out@ =~= base@ + seq!['/'] + file@);
        }
    }
    string_of_chars(&out)
}

/// A unique target path: `base` itself when free, else `stem (n)ext` with
/// the smallest counter `n >= 1` that is neither on disk nor in the
/// registry (`taken` holds both kinds of occupied paths). Fails only in
/// the degenerate cases: a taken path already carries the largest
/// representable counter, or the base path is too long to extend.
pub fn resolve_unique_path(base: &str, taken: &Vec<String>) -> (r: Option<String>)
    ensures
        match r {
            Some(p) => spec_resolved_path_ok(base@, taken@, p@),
            None => {
                &&& spec_taken(taken@, base@)
                &&& (base@.len() > usize::MAX - 4 || spec_taken(
                    taken@,
                    spec_with_suffix(
                        base@.take(spec_split_point(base@)),
                        base@.skip(spec_split_point(base@)),
                        u64::MAX,
                    ),
                ))
            }
        },
{
    if !is_taken(taken, base) {
        return Some(base.to_owned());
    }
    let bv = char_vec(base);
    let n = bv.len();
    if n > usize::MAX - 4 {
        return None;
    }
    // Split at the last '.' that follows the last path separator.
    let dot = last_index_of(&bv, '.');
    let slash = last_index_of(&bv, '/');
    let back = last_index_of(&bv, '\\');
    let mut split: usize = n;
    let mut have_dot: bool = false;
    match dot {
        Some(d) => {
            let after_slash = match slash {
                Some(s) => d > s,
                None => true,
            };
            let after_back = match back {
                Some(b) => d > b,
                None => true,
            };
            if after_slash && after_back {
                split = d;
                have_dot = true;
            }
        }
        None => {}
    }
    proof {
        if have_dot {
            assert(spec_is_split_dot(base@, split as int));
            let w = choose|i: int| spec_is_split_dot(base@, i);
            lemma_split_dot_unique(base@, w, split as int);
            assert(spec_split_point(base@) == split as int);
        } else {
            assert forall|i: int| !spec_is_split_dot(base@, i) by {
                if spec_is_split_dot(base@, i) {
                    match dot {
                        Some(d) => {
                            if i < d {
                                assert(base@[d as int] == '.');
                            } else if i > d {
                                assert(base@[i] == '.');
                            } else {
                                match slash {
                                    Some(s) => {
                                        if d <= s {
                                            assert(base@[s as int] == '/');
                                        } else {
                                            match back {
                                                Some(b) => {
                                                    assert(d <= b);
                                                    assert(base@[b as int] == '\\');
                                                }
                                                None => {}
                                            }
                                        }
                                    }
                                    None => {
                                        match back {
                                            Some(b) => {
                                                assert(d <= b);
                                                assert(base@[b as int] == '\\');
                                            }
                                            None => {}
                                        }
                                    }
                                }
                            }
                        }
                        None => {
                            assert(base@[i] == '.');
                        }
                    }
                }
            }
            assert(spec_split_point(base@) == n as int);
        }
    }
    let mut stem: Vec<char> = Vec::new();
    let mut i: usize = 0;
    while i < split
        invariant
            split <= n == bv@.len(),
            i <= split,
            stem@ =~= bv@.subrange(0, i as int),
        decreases split - i,
    {
        stem.push(bv[i]);
        i = i + 1;
    }
    let mut ext: Vec<char> = Vec::new();
    let mut j: usize = split;
    while j < n
        invariant
            split <= j <= n == bv@.len(),
            ext@ =~= bv@.subrange(split as int, j as int),
        decreases n - j,
    {
        ext.push(bv[j]);
        j = j + 1;
    }
    proof {
        assert(stem@ =~= base@.take(spec_split_point(base@)));
        assert(ext@ =~= base@.skip(spec_split_point(base@)));
    }
    // Upper bound on any counter already taken for this stem and extension.
    let tn = taken.len();
    let mut maxm: u64 = 0;
    let mut ti: usize = 0;
    while ti < tn
        invariant
            spec_taken(taken@, base@),
            tn == taken@.len(),
            ti <= tn,
            stem@.len() + ext@.len() <= n <= usize::MAX - 4,
            stem@ == base@.take(spec_split_point(base@)),
            ext@ == base@.skip(spec_split_point(base@)),
            forall|m: u64|
                #[trigger] spec_suffix_taken_upto(taken@, stem@, ext@, ti as int, m) ==> m
                    <= maxm,
            maxm == 0 || spec_taken(taken@, spec_with_suffix(stem@, ext@, maxm)),
        decreases tn - ti,
    {
        let ghost old_maxm = maxm;
        match suffix_counter(&taken[ti], &stem, &ext) {
            Some(v) => {
                if v > maxm {
                    maxm = v;
                    proof {
                        assert(taken@[ti as int]@ == spec_with_suffix(stem@, ext@, v));
                        assert(spec_taken(taken@, spec_with_suffix(stem@, ext@, v)));
                    }
                }
            }
            None => {}
        }
        ti = ti + 1;
        proof {
            assert forall|m: u64|
                #[trigger] spec_suffix_taken_upto(taken@, stem@, ext@, ti as int, m) implies m
                <= maxm by {
                let j2 = choose|j2: int|
                    0 <= j2 < ti && taken@[j2]@ == spec_with_suffix(stem@, ext@, m);
                if j2 < ti - 1 {
                    assert(spec_suffix_taken_upto(taken@, stem@, ext@, ti - 1, m));
                }
            }
        }
    }
    proof {
        assert forall|m: u64|
            spec_taken(taken@, #[trigger] spec_with_suffix(stem@, ext@, m)) implies m <= maxm by {
            let j2 = choose|j2: int|
                0 <= j2 < taken@.len() && taken@[j2]@ == spec_with_suffix(stem@, ext@, m);
            assert(spec_suffix_taken_upto(taken@, stem@, ext@, tn as int, m));
        }
    }
    if maxm == u64::MAX {
        return None;
    }
    // Smallest free counter; `maxm + 1` is certainly free, so this ends.
    let mut k: u64 = 1;
    while k <= maxm
        invariant
            spec_taken(taken@, base@),
            maxm < u64::MAX,
            1 <= k,
            stem@ == base@.take(spec_split_point(base@)),
            ext@ == base@.skip(spec_split_point(base@)),
            forall|m: u64|
                spec_taken(taken@, #[trigger] spec_with_suffix(stem@, ext@, m)) ==> m <= maxm,
            forall|m: u64|
                1 <= m < k ==> spec_taken(taken@, #[trigger] spec_with_suffix(stem@, ext@, m)),
        decreases maxm + 1 - k,
    {
        let cand = build_with_suffix(&stem, &ext, k);
        if !is_taken(taken, cand.as_str()) {
            proof {
                assert(1 <= k && cand@ == spec_with_suffix(stem@, ext@, k) && forall|m: u64|
                    1 <= m < k ==> spec_taken(taken@, #[trigger] spec_with_suffix(stem@, ext@, m)));
            }
            return Some(cand);
        }
        k = k + 1;
    }
    let cand = build_with_suffix(&stem, &ext, k);
    proof {
        assert(!spec_taken(taken@, cand@)) by {
            if spec_taken(taken@, spec_with_suffix(stem@, ext@, k)) {
                assert(k <= maxm);
            }
        }
        assert(1 <= k && cand@ == spec_with_suffix(stem@, ext@, k) && forall|m: u64|
            1 <= m < k ==> spec_taken(taken@, #[trigger] spec_with_suffix(stem@, ext@, m)));
    }
    Some(cand)
}

} // verus!
