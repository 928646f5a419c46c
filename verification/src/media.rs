//! Parsing of the external media extractor's progress stream: unit-aware
//! sizes, `mm:ss` / `hh:mm:ss` countdowns, percentages, phase markers, and
//! the accumulation of per-part progress into one running total.

use vstd::prelude::*;
use crate::strutil::{
    char_vec, spec_lower, ascii_lower, spec_contains_seq, str_contains, spec_is_digit,
    spec_digits_val, parse_u64_chars, spec_parse_u64_ok, string_of_chars, contains_sub,
};
use crate::filename::{spec_before, spec_idx_of, before_char};

verus! {

/// The longest prefix made of decimal digits and dots: the numeric part of
/// a value such as `14.31MiB`.
pub open spec fn spec_num_prefix(s: Seq<char>) -> Seq<char>
    decreases s.len(),
{
    if s.len() > 0 && (spec_is_digit(s.first()) || s.first() == '.') {
        seq![s.first()] + spec_num_prefix(s.drop_first())
    } else {
        Seq::empty()
    }
}

proof fn lemma_num_prefix_at(s: Seq<char>, k: int)
    requires
        0 <= k <= s.len(),
        forall|j: int| 0 <= j < k ==> spec_is_digit(s[j]) || s[j] == '.',
        k == s.len() || !(spec_is_digit(s[k]) || s[k] == '.'),
    ensures
        spec_num_prefix(s) == s.take(k),
    decreases k,
{
    if k == 0 {
        assert(s.take(0) =~= Seq::<char>::empty());
    } else {
        let t = s.drop_first();
        assert(forall|j: int| 0 <= j < k - 1 ==> t[j] == s[j + 1]);
        if k < s.len() {
            assert(t[k - 1] == s[k]);
        }
        lemma_num_prefix_at(t, k - 1);
        assert(seq![s.first()] + t.take(k - 1) =~= s.take(k));
    }
}

proof fn lemma_num_prefix_chars(s: Seq<char>)
    ensures
        forall|j: int|
            0 <= j < spec_num_prefix(s).len() ==> spec_is_digit(#[trigger] spec_num_prefix(s)[j])
                || spec_num_prefix(s)[j] == '.',
    decreases s.len(),
{
    if s.len() > 0 && (spec_is_digit(s.first()) || s.first() == '.') {
        lemma_num_prefix_chars(s.drop_first());
        let p = spec_num_prefix(s);
        let q = spec_num_prefix(s.drop_first());
        assert(forall|j: int| 1 <= j < p.len() ==> p[j] == q[j - 1]);
    }
}

/// The numeric prefix of a token.
fn num_prefix(v: &Vec<char>) -> (r: Vec<char>)
    ensures
        r@ == spec_num_prefix(v@),
{
    let n = v.len();
    let mut out: Vec<char> = Vec::new();
    let mut i: usize = 0;
    while i < n
        invariant
            n == v@.len(),
            i <= n,
            forall|j: int| 0 <= j < i ==> spec_is_digit(v@[j]) || v@[j] == '.',
            out@ =~= v@.take(i as int),
        decreases n - i,
    {
        let c = v[i];
        let cu: u32 = c as u32;
        if !((cu >= 48 && cu <= 57) || c == '.') {
            proof {
                lemma_num_prefix_at(v@, i as int);
            }
            return out;
        }
        out.push(c);
        i = i + 1;
    }
    proof {
        lemma_num_prefix_at(v@, n as int);
        assert(out@ =~= v@.take(n as int));
    }
    out
}

/// Number of dots in a numeric prefix.
pub open spec fn spec_count_dots(s: Seq<char>) -> int
    decreases s.len(),
{
    if s.len() == 0 {
        0
    } else {
        spec_count_dots(s.drop_last()) + if s.last() == '.' {
            1int
        } else {
            0int
        }
    }
}

fn count_dots(v: &Vec<char>) -> (r: usize)
    ensures
        r == spec_count_dots(v@),
        r <= v@.len(),
{
    proof {
        lemma_count_dots_bound(v@);
    }
    let n = v.len();
    let mut cnt: usize = 0;
    let mut i: usize = 0;
    while i < n
        invariant
            n == v@.len(),
            i <= n,
            cnt == spec_count_dots(v@.take(i as int)),
            cnt <= i,
        decreases n - i,
    {
        proof {
            assert(v@.take(i + 1).drop_last() =~= v@.take(i as int));
            assert(v@.take(i + 1).last() == v@[i as int]);
        }
        if v[i] == '.' {
            cnt = cnt + 1;
        }
        i = i + 1;
    }
    proof {
        assert(v@.take(n as int) =~= v@);
    }
    cnt
}

proof fn lemma_count_dots_bound(s: Seq<char>)
    ensures
        0 <= spec_count_dots(s) <= s.len(),
    decreases s.len(),
{
    if s.len() > 0 {
        lemma_count_dots_bound(s.drop_last());
    }
}

/// A digit string's value, saturated at `u64::MAX`.
pub open spec fn spec_digits_sat(s: Seq<char>) -> int {
    if spec_digits_val(s) > u64::MAX {
        u64::MAX as int
    } else {
        spec_digits_val(s)
    }
}

/// Parses digits, saturating at `u64::MAX`; digits only.
fn parse_digits_sat(v: &Vec<char>) -> (r: u64)
    requires
        forall|j: int| 0 <= j < v@.len() ==> spec_is_digit(#[trigger] v@[j]),
    ensures
        r == spec_digits_sat(v@),
{
    proof {
        crate::strutil::lemma_digits_val_nonneg(v@);
    }
    match parse_u64_chars(v) {
        Some(n) => n,
        None => {
            if v.len() == 0 {
                proof {
                    assert(spec_digits_val(v@) == 0);
                }
                0
            } else {
                u64::MAX
            }
        }
    }
}

/// The decimal factor of a size suffix, decided on the lowercased token:
/// gibi, mebi or kibi, with both spellings, else bytes.
pub open spec fn spec_size_factor(l: Seq<char>) -> int {
    if spec_contains_seq(l, "gb"@) || spec_contains_seq(l, "gib"@) {
        0x40000000
    } else if spec_contains_seq(l, "mb"@) || spec_contains_seq(l, "mib"@) {
        0x100000
    } else if spec_contains_seq(l, "kb"@) || spec_contains_seq(l, "kib"@) {
        0x400
    } else {
        1
    }
}

/// The whole and fractional digits of a numeric prefix with at most one
/// dot; the fraction is cut after twelve digits.
pub open spec fn spec_mantissa_ok(num: Seq<char>) -> bool {
    &&& num.len() > 0
    &&& spec_count_dots(num) <= 1
    &&& num.len() > spec_count_dots(num)
}

pub open spec fn spec_whole_part(num: Seq<char>) -> Seq<char> {
    spec_before(num, '.')
}

pub open spec fn spec_frac_part(num: Seq<char>) -> Seq<char> {
    if spec_idx_of(num, '.') < num.len() {
        let f = num.skip(spec_idx_of(num, '.') + 1);
        if f.len() > 12 {
            f.take(12)
        } else {
            f
        }
    } else {
        Seq::empty()
    }
}

pub open spec fn spec_pow10(n: nat) -> int
    decreases n,
{
    if n == 0 {
        1
    } else {
        10 * spec_pow10((n - 1) as nat)
    }
}

/// The byte value of a size token such as `14.31MiB`: mantissa times the
/// unit factor, truncated, saturated at `u64::MAX`; 0 when the token has no
/// usable number.
pub open spec fn spec_parse_size(s: Seq<char>) -> int {
    let l = spec_lower(s);
    let factor = spec_size_factor(l);
    let num = spec_num_prefix(l);
    if !spec_mantissa_ok(num) {
        0
    } else {
        let whole = spec_whole_part(num);
        let frac = spec_frac_part(num);
        let v = spec_digits_sat(whole) * factor + (spec_digits_val(frac) * factor) / spec_pow10(
            frac.len() as nat,
        );
        if v > u64::MAX {
            u64::MAX as int
        } else {
            v
        }
    }
}

/// Parses a size with a binary unit suffix (`KB`/`KiB`, `MB`/`MiB`,
/// `GB`/`GiB`, case-insensitive) into bytes, truncating the fraction;
/// yields 0 for tokens without a usable number.
pub fn parse_size(s: &str) -> (r: u64)
    ensures
        r == spec_parse_size(s@),
{
    let low = ascii_lower(s);
    let lv = char_vec(low.as_str());
    let factor: u64 = if str_contains(low.as_str(), "gb") || str_contains(low.as_str(), "gib") {
        0x40000000
    } else if str_contains(low.as_str(), "mb") || str_contains(low.as_str(), "mib") {
        0x100000
    } else if str_contains(low.as_str(), "kb") || str_contains(low.as_str(), "kib") {
        0x400
    } else {
        1
    };
    let num = num_prefix(&lv);
    let nn = num.len();
    let dots = count_dots(&num);
    if nn == 0 || dots > 1 || nn <= dots {
        return 0;
    }
    let whole = before_char(&num, '.');
    proof {
        lemma_num_prefix_chars(lv@);
        assert(forall|j: int|
            0 <= j < num@.len() ==> spec_is_digit(#[trigger] num@[j]) || num@[j] == '.');
        lemma_whole_digits(num@);
        assert(whole@ == spec_whole_part(num@));
        assert(forall|j: int| 0 <= j < whole@.len() ==> spec_is_digit(#[trigger] whole@[j]));
    }
    let frac_all = dot_suffix(&num);
    let frac = if frac_all.len() > 12 {
        take_prefix(&frac_all, 12)
    } else {
        frac_all
    };
    proof {
        lemma_frac_digits(num@);
        assert(frac@ == spec_frac_part(num@));
        assert(forall|j: int| 0 <= j < frac@.len() ==> spec_is_digit(#[trigger] frac@[j]));
    }
    let w = parse_digits_sat(&whole);
    let f = parse_digits_sat_small(&frac);
    proof {
        lemma_pow10_bounds(frac@.len() as nat);
    }
    let p10 = pow10_u64(frac.len() as u64);
    proof {
        lemma_digits_val_len_bound(frac@);
        assert((w as int) * (factor as int) <= 0xFFFFFFFFFFFFFFFFint * 0x40000000)
            by (nonlinear_arith)
            requires
                0 <= w <= 0xFFFFFFFFFFFFFFFFu64,
                0 <= factor <= 0x40000000u64,
        ;
        assert((f as int) * (factor as int) <= 1000000000000int * 0x40000000)
            by (nonlinear_arith)
            requires
                0 <= f <= 1000000000000int,
                0 <= factor <= 0x40000000u64,
        ;
    }
    let total: u128 = (w as u128) * (factor as u128) + ((f as u128) * (factor as u128)) / (
    p10 as u128);
    if total > u64::MAX as u128 {
        u64::MAX
    } else {
        total as u64
    }
}

/// The digits after the first dot.
fn dot_suffix(v: &Vec<char>) -> (r: Vec<char>)
    ensures
        r@ == if spec_idx_of(v@, '.') < v@.len() {
            v@.skip(spec_idx_of(v@, '.') + 1)
        } else {
            Seq::<char>::empty()
        },
{
    let n = v.len();
    let mut i: usize = 0;
    while i < n
        invariant
            n == v@.len(),
            i <= n,
            forall|j: int| 0 <= j < i ==> v@[j] != '.',
        decreases n - i,
    {
        if v[i] == '.' {
            proof {
                crate::filename::lemma_idx_of_at(v@, '.', i as int);
            }
            return crate::filename::suffix_chars(v, i + 1);
        }
        i = i + 1;
    }
    proof {
        crate::filename::lemma_idx_of_at(v@, '.', n as int);
    }
    Vec::new()
}

/// The first `k` characters.
fn take_prefix(v: &Vec<char>, k: usize) -> (r: Vec<char>)
    requires
        k <= v@.len(),
    ensures
        r@ == v@.take(k as int),
{
    let mut out: Vec<char> = Vec::new();
    let mut i: usize = 0;
    while i < k
        invariant
            k <= v@.len(),
            i <= k,
            out@ =~= v@.take(k as int).subrange(0, i as int),
        decreases k - i,
    {
        proof {
            assert(v@.take(k as int)[i as int] == v@[i as int]);
        }
        out.push(v[i]);
        i = i + 1;
    }
    proof {
        assert(out@ =~= v@.take(k as int));
    }
    out
}

/// Saturating digit parse for short digit strings.
fn parse_digits_sat_small(v: &Vec<char>) -> (r: u64)
    requires
        forall|j: int| 0 <= j < v@.len() ==> spec_is_digit(#[trigger] v@[j]),
    ensures
        r == spec_digits_sat(v@),
        v@.len() <= 12 ==> r == spec_digits_val(v@),
{
    proof {
        if v@.len() <= 12 {
            lemma_digits_val_len_bound(v@);
            lemma_pow10_bounds(v@.len() as nat);
        }
    }
    parse_digits_sat(v)
}

proof fn lemma_digits_val_len_bound(s: Seq<char>)
    requires
        forall|j: int| 0 <= j < s.len() ==> spec_is_digit(#[trigger] s[j]),
    ensures
        0 <= spec_digits_val(s) < spec_pow10(s.len() as nat),
    decreases s.len(),
{
    if s.len() == 0 {
    } else {
        lemma_digits_val_len_bound(s.drop_last());
        let p = spec_pow10((s.len() - 1) as nat);
        assert(spec_is_digit(s.last()));
        assert(spec_digits_val(s.drop_last()) * 10 + 10 <= p * 10) by (nonlinear_arith)
            requires
                spec_digits_val(s.drop_last()) < p,
        ;
    }
}

proof fn lemma_pow10_val12()
    ensures
        spec_pow10(12) == 1000000000000,
{
    assert(spec_pow10(0) == 1);
    assert(spec_pow10(1) == 10);
    assert(spec_pow10(2) == 100);
    assert(spec_pow10(3) == 1000);
    assert(spec_pow10(4) == 10000);
    assert(spec_pow10(5) == 100000);
    assert(spec_pow10(6) == 1000000);
    assert(spec_pow10(7) == 10000000);
    assert(spec_pow10(8) == 100000000);
    assert(spec_pow10(9) == 1000000000);
    assert(spec_pow10(10) == 10000000000);
    assert(spec_pow10(11) == 100000000000);
    assert(spec_pow10(12) == 1000000000000);
}

proof fn lemma_pow10_bounds(n: nat)
    requires
        n <= 12,
    ensures
        1 <= spec_pow10(n) <= 1000000000000,
{
    lemma_pow10_pos(n);
    lemma_pow10_mono(n, 12);
    lemma_pow10_val12();
}

proof fn lemma_pow10_mono(a: nat, b: nat)
    requires
        a <= b,
    ensures
        spec_pow10(a) <= spec_pow10(b),
    decreases b,
{
    if a < b {
        lemma_pow10_mono(a, (b - 1) as nat);
        lemma_pow10_pos((b - 1) as nat);
    }
}

proof fn lemma_pow10_pos(n: nat)
    ensures
        spec_pow10(n) >= 1,
    decreases n,
{
    if n > 0 {
        lemma_pow10_pos((n - 1) as nat);
    }
}

/// Ten to the `n` for small `n`.
fn pow10_u64(n: u64) -> (r: u64)
    requires
        n <= 12,
    ensures
        r == spec_pow10(n as nat),
{
    let mut r: u64 = 1;
    let mut i: u64 = 0;
    while i < n
        invariant
            i <= n <= 12,
            r == spec_pow10(i as nat),
            r <= 1000000000000,
        decreases n - i,
    {
        proof {
            lemma_pow10_bounds((i + 1) as nat);
        }
        r = r * 10;
        i = i + 1;
    }
    r
}

proof fn lemma_whole_digits(num: Seq<char>)
    requires
        forall|j: int| 0 <= j < num.len() ==> spec_is_digit(num[j]) || num[j] == '.',
    ensures
        forall|j: int|
            0 <= j < spec_whole_part(num).len() ==> spec_is_digit(
                #[trigger] spec_whole_part(num)[j],
            ),
    decreases num.len(),
{
    let w = spec_whole_part(num);
    crate::filename::lemma_idx_of_le_len(num, '.');
    assert forall|j: int| 0 <= j < w.len() implies spec_is_digit(#[trigger] w[j]) by {
        assert(w[j] == num[j]);
        crate::filename::lemma_idx_of_none_before(num, '.', j);
    }
}

proof fn lemma_frac_digits(num: Seq<char>)
    requires
        forall|j: int| 0 <= j < num.len() ==> spec_is_digit(num[j]) || num[j] == '.',
        spec_count_dots(num) <= 1,
    ensures
        forall|j: int|
            0 <= j < spec_frac_part(num).len() ==> spec_is_digit(#[trigger] spec_frac_part(num)[j]),
{
    let fp = spec_frac_part(num);
    crate::filename::lemma_idx_of_le_len(num, '.');
    let d = spec_idx_of(num, '.');
    if d < num.len() {
        crate::filename::lemma_idx_of_found(num, '.');
        assert forall|j: int| 0 <= j < fp.len() implies spec_is_digit(#[trigger] fp[j]) by {
            let full = num.skip(d + 1);
            assert(fp[j] == full[j]);
            assert(full[j] == num[d + 1 + j]);
            if num[d + 1 + j] == '.' {
                lemma_two_dots(num, d, d + 1 + j);
            }
        }
    }
}

proof fn lemma_two_dots(num: Seq<char>, a: int, b: int)
    requires
        0 <= a < b < num.len(),
        num[a] == '.',
        num[b] == '.',
    ensures
        spec_count_dots(num) >= 2,
    decreases num.len(),
{
    if b == num.len() - 1 {
        lemma_one_dot(num.drop_last(), a);
    } else {
        lemma_two_dots(num.drop_last(), a, b);
    }
}

proof fn lemma_one_dot(num: Seq<char>, a: int)
    requires
        0 <= a < num.len(),
        num[a] == '.',
    ensures
        spec_count_dots(num) >= 1,
    decreases num.len(),
{
    lemma_count_dots_bound(num);
    if a == num.len() - 1 {
        lemma_count_dots_bound(num.drop_last());
    } else {
        lemma_one_dot(num.drop_last(), a);
    }
}

/// The seconds a countdown token denotes: `mm:ss` or `hh:mm:ss` with
/// decimal parts, saturated; 0 for any other shape.
pub open spec fn spec_parse_eta(s: Seq<char>) -> int {
    let i = spec_idx_of(s, ':');
    if i >= s.len() {
        0
    } else {
        let first = s.take(i);
        let rest = s.skip(i + 1);
        let j = spec_idx_of(rest, ':');
        if j >= rest.len() {
            spec_sat_u64(spec_part_val(first) * 60 + spec_part_val(rest))
        } else {
            let second = rest.take(j);
            let third = rest.skip(j + 1);
            if spec_idx_of(third, ':') < third.len() {
                0
            } else {
                spec_sat_u64(
                    spec_part_val(first) * 3600 + spec_part_val(second) * 60 + spec_part_val(
                        third,
                    ),
                )
            }
        }
    }
}

/// One colon-separated part: its decimal value, or 0 when it is not a
/// plain number in range.
pub open spec fn spec_part_val(s: Seq<char>) -> int {
    if spec_parse_u64_ok(s) {
        spec_digits_val(s)
    } else {
        0
    }
}

pub open spec fn spec_sat_u64(v: int) -> int {
    if v > u64::MAX {
        u64::MAX as int
    } else {
        v
    }
}

/// Parses an extractor countdown (`mm:ss` or `hh:mm:ss`) into seconds;
/// malformed parts count as zero, and any other shape yields 0.
pub fn parse_eta(s: &str) -> (r: u64)
    ensures
        r == spec_parse_eta(s@),
{
    let sv = char_vec(s);
    let svn = sv.len();
    let first = before_char(&sv, ':');
    proof {
        crate::filename::lemma_idx_of_le_len(sv@, ':');
    }
    if first.len() == svn {
        return 0;
    }
    let rest = crate::filename::suffix_chars(&sv, first.len() + 1);
    let rn = rest.len();
    let second = before_char(&rest, ':');
    proof {
        crate::filename::lemma_idx_of_le_len(rest@, ':');
    }
    if second.len() == rn {
        let a = parse_part(&first);
        let b = parse_part(&rest);
        return sat_add(sat_mul(a, 60), b);
    }
    let third = crate::filename::suffix_chars(&rest, second.len() + 1);
    let third_head = before_char(&third, ':');
    proof {
        crate::filename::lemma_idx_of_le_len(third@, ':');
    }
    if third_head.len() != third.len() {
        return 0;
    }
    let a = parse_part(&first);
    let b = parse_part(&second);
    let c = parse_part(&third);
    sat_add(sat_add(sat_mul(a, 3600), sat_mul(b, 60)), c)
}

/// One countdown part: a decimal value, or 0 when malformed.
fn parse_part(v: &Vec<char>) -> (r: u64)
    ensures
        r == spec_part_val(v@),
{
    match parse_u64_chars(v) {
        Some(n) => n,
        None => 0,
    }
}

fn sat_mul(a: u64, b: u64) -> (r: u64)
    ensures
        r == spec_sat_u64(a * b),
{
    proof {
        assert((a as int) * (b as int) <= u128::MAX) by (nonlinear_arith)
            requires
                a <= u64::MAX,
                b <= u64::MAX,
        ;
    }
    let v: u128 = (a as u128) * (b as u128);
    if v > u64::MAX as u128 {
        u64::MAX
    } else {
        v as u64
    }
}

fn sat_add(a: u64, b: u64) -> (r: u64)
    ensures
        r == spec_sat_u64(a + b),
{
    match a.checked_add(b) {
        Some(v) => v,
        None => u64::MAX,
    }
}

/// Whether an extractor-reported format is offered to the user: page
/// snapshots and the formats the pipeline cannot merge are dropped.
pub fn keep_format(extension: &str, format_id: &str) -> (r: bool)
    ensures
        r == (extension@ != "mhtml"@ && !spec_contains_seq(format_id@, "mhtml"@) && extension@
            != "webm"@),
{
    !crate::strutil::str_eq(extension, "mhtml") && !str_contains(format_id, "mhtml")
        && !crate::strutil::str_eq(extension, "webm")
}

/// One downloadable format reported by the extractor for a media page.
#[derive(Debug, Clone)]
pub struct VideoFormat {
    pub format_id: String,
    pub extension: String,
    pub resolution: String,
    pub filesize: Option<u64>,
    pub protocol: String,
    pub note: Option<String>,
    pub acodec: Option<String>,
    pub vcodec: Option<String>,
}

/// The extractor's format selector: `video+audio` when a separate audio
/// stream was chosen, else the single format id.
pub fn format_selector(format_id: &str, audio_id: Option<&str>) -> (r: String)
    ensures
        match audio_id {
            Some(a) => r@ == format_id@ + "+"@ + a@,
            None => r@ == format_id@,
        },
{
    match audio_id {
        Some(a) => {
            let mut out = format_id.to_owned();
            out.append("+");
            proof {
                reveal_strlit("+");
            }
            out.append(a);
            out
        }
        None => format_id.to_owned(),
    }
}

/// Running accumulation of the extractor's per-part progress: completed
/// earlier parts plus the largest size observed for the current part.
#[derive(Debug, Clone, Copy)]
pub struct MediaProgress {
    /// Bytes of parts already finished.
    pub accumulated: u64,
    /// Largest total observed for the part now transferring.
    pub current_max: u64,
}

impl MediaProgress {
    /// Fresh accumulator: nothing transferred.
    pub fn new() -> (r: MediaProgress)
        ensures
            r.accumulated == 0,
            r.current_max == 0,
    {
        MediaProgress { accumulated: 0, current_max: 0 }
    }

    /// A new destination line: the previous part is done, so its largest
    /// observed size moves into the completed total.
    pub fn on_new_part(&mut self)
        ensures
            final(self).accumulated == spec_sat_u64(
                old(self).accumulated + old(self).current_max,
            ),
            final(self).current_max == 0,
    {
        self.accumulated = sat_add(self.accumulated, self.current_max);
        self.current_max = 0;
    }

    /// A percent line reports the current part's total: sizes only grow.
    pub fn observe_total(&mut self, total: u64)
        ensures
            final(self).accumulated == old(self).accumulated,
            final(self).current_max == if total > old(self).current_max {
                total as int
            } else {
                old(self).current_max as int
            },
    {
        if total > self.current_max {
            self.current_max = total;
        }
    }

    /// Bytes transferred so far: finished parts plus the reported tenths of
    /// a percent of the current part.
    pub fn downloaded(&self, percent_tenths: u64) -> (r: u64)
        requires
            percent_tenths <= 1000,
        ensures
            r == spec_sat_u64(
                self.accumulated + (self.current_max * percent_tenths) / 1000,
            ),
    {
        proof {
            assert((self.current_max as int) * (percent_tenths as int) <= u128::MAX)
                by (nonlinear_arith)
                requires
                    self.current_max <= u64::MAX,
                    percent_tenths <= 1000,
            ;
            assert((self.current_max as int) * (percent_tenths as int) / 1000
                <= self.current_max as int) by (nonlinear_arith)
                requires
                    percent_tenths <= 1000,
                    self.current_max >= 0,
            ;
        }
        let part: u128 = ((self.current_max as u128) * (percent_tenths as u128)) / 1000;
        sat_add(self.accumulated, part as u64)
    }

    /// The total to display: the expected size when it is still larger than
    /// everything seen, else the running sum of observed parts.
    pub fn display_total(&self, expected: u64) -> (r: u64)
        ensures
            r == ({
                let running = spec_sat_u64(self.accumulated + self.current_max);
                if expected > running {
                    expected as int
                } else {
                    running
                }
            }),
    {
        let running = sat_add(self.accumulated, self.current_max);
        if expected > running {
            expected
        } else {
            running
        }
    }
}


/// Whether `s` ends with the given suffix.
pub open spec fn spec_ends_with(s: Seq<char>, suf: Seq<char>) -> bool {
    s.len() >= suf.len() && s.subrange(s.len() - suf.len(), s.len() as int) == suf
}

/// True exactly when `v` ends with `suf`.
fn ends_with(v: &Vec<char>, suf: &Vec<char>) -> (r: bool)
    ensures
        r == spec_ends_with(v@, suf@),
{
    let n = v.len();
    let m = suf.len();
    if m > n {
        return false;
    }
    crate::strutil::matches_at(v, n - m, suf)
}

/// The merged extractor output lands in an MP4 container: an audio-only
/// target keeps its extension, a path already ending in `.mp4` (any case)
/// stays, and any other path has its extension replaced by (or gains)
/// `.mp4`.
pub open spec fn spec_mp4_output(s: Seq<char>) -> Seq<char> {
    if spec_ends_with(s, ".m4a"@) || spec_ends_with(s, ".mp3"@) || spec_ends_with(s, ".aac"@)
        || spec_ends_with(s, ".opus"@) {
        s
    } else if spec_ends_with(spec_lower(s), ".mp4"@) {
        s
    } else if spec_contains_seq(s, "."@) {
        s.take(s.len() - crate::filename::spec_after_last(s, '.').len() - 1) + ".mp4"@
    } else {
        s + ".mp4"@
    }
}

/// Adjusts a media target path for the merged MP4 output.
pub fn mp4_output_path(filepath: &str) -> (r: String)
    ensures
        r@ == spec_mp4_output(filepath@),
{
    let sv = char_vec(filepath);
    let n = sv.len();
    if ends_with(&sv, &char_vec(".m4a")) || ends_with(&sv, &char_vec(".mp3")) || ends_with(
        &sv,
        &char_vec(".aac"),
    ) || ends_with(&sv, &char_vec(".opus")) {
        return filepath.to_owned();
    }
    let low = ascii_lower(filepath);
    let lv = char_vec(low.as_str());
    if ends_with(&lv, &char_vec(".mp4")) {
        return filepath.to_owned();
    }
    let dot = char_vec(".");
    proof {
        reveal_strlit(".");
        assert(dot@.len() == 1);
    }
    let prefix_len: usize;
    match crate::strutil::find_sub(&sv, &dot) {
        Some(w) => {
            proof {
                reveal_strlit(".");
                assert("."@.len() == 1 && "."@[0] == '.');
                assert(filepath@.subrange(w as int, w + 1) =~= seq![filepath@[w as int]]);
                assert(filepath@.subrange(w as int, w + 1) == "."@);
                assert(seq![filepath@[w as int]][0] == filepath@[w as int]);
                assert(filepath@[w as int] == '.');
                assert(crate::strutil::spec_contains_seq(filepath@, "."@));
                crate::filename::lemma_after_last_shorter(filepath@, '.');
            }
            let seg = crate::filename::after_last_char(&sv, '.');
            prefix_len = n - seg.len() - 1;
        }
        None => {
            proof {
                crate::strutil::lemma_no_match_no_contains(filepath@, "."@);
            }
            prefix_len = n;
        }
    }
    let mut out: Vec<char> = Vec::new();
    let mut i: usize = 0;
    while i < prefix_len
        invariant
            prefix_len <= n == sv@.len(),
            sv@ == filepath@,
            i <= prefix_len,
            out@ =~= sv@.subrange(0, i as int),
        decreases prefix_len - i,
    {
        out.push(sv[i]);
        i = i + 1;
    }
    out.push('.');
    out.push('m');
    out.push('p');
    out.push('4');
    proof {
        reveal_strlit(".mp4");
        assert(".mp4"@.len() == 4);
        assert(out@ =~= filepath@.take(prefix_len as int) + ".mp4"@);
        if crate::strutil::spec_contains_seq(filepath@, "."@) {
            assert(out@ =~= spec_mp4_output(filepath@));
        } else {
            assert(filepath@.take(n as int) =~= filepath@);
            assert(out@ =~= spec_mp4_output(filepath@));
        }
    }
    string_of_chars(&out)
}


/// The views of a list of character vectors.
pub open spec fn spec_views(vs: Seq<Vec<char>>) -> Seq<Seq<char>> {
    vs.map_values(|v: Vec<char>| v@)
}

/// The whitespace-separated tokens of a line: maximal runs of non-space
/// characters, in order.
pub open spec fn spec_tokens(s: Seq<char>) -> Seq<Seq<char>>
    decreases s.len(),
{
    if s.len() == 0 {
        Seq::empty()
    } else {
        let rest = spec_tokens(s.drop_last());
        let c = s.last();
        if crate::filename::spec_is_space(c) {
            rest
        } else if s.len() == 1 || crate::filename::spec_is_space(s[s.len() - 2]) {
            rest.push(seq![c])
        } else if rest.len() == 0 {
            rest.push(seq![c])
        } else {
            rest.update(rest.len() - 1, rest.last().push(c))
        }
    }
}

/// Splits a line into its whitespace-separated tokens.
pub fn tokenize(line: &str) -> (r: Vec<Vec<char>>)
    ensures
        spec_views(r@) == spec_tokens(line@),
{
    let lv = char_vec(line);
    let n = lv.len();
    let mut out: Vec<Vec<char>> = Vec::new();
    let mut i: usize = 0;
    proof {
        assert(spec_views(out@) =~= spec_tokens(lv@.take(0)));
    }
    while i < n
        invariant
            n == lv@.len(),
            lv@ == line@,
            i <= n,
            spec_views(out@) == spec_tokens(lv@.take(i as int)),
            i > 0 && !crate::filename::spec_is_space(lv@[i - 1]) ==> out@.len() > 0,
        decreases n - i,
    {
        proof {
            assert(lv@.take(i + 1).drop_last() =~= lv@.take(i as int));
            assert(lv@.take(i + 1).last() == lv@[i as int]);
            if i > 0 {
                assert(lv@.take(i + 1)[i - 1] == lv@[i - 1]);
            }
        }
        let c = lv[i];
        let sp = c == ' ' || c == '\t' || c == '\r' || c == '\n';
        if !sp {
            let prev_sp = if i == 0 {
                true
            } else {
                let p = lv[i - 1];
                p == ' ' || p == '\t' || p == '\r' || p == '\n'
            };
            if prev_sp {
                let mut tok: Vec<char> = Vec::new();
                tok.push(c);
                proof {
                    assert(tok@ =~= seq![lv@[i as int]]);
                }
                let ghost out0 = out@;
                out.push(tok);
                proof {
                    assert(spec_views(out@) =~= spec_views(out0).push(seq![lv@[i as int]]));
                }
            } else {
                let li = out.len() - 1;
                let ghost out0 = out@;
                let last_tok = &mut out[li];
                last_tok.push(c);
                proof {
                    assert(out@ == out0.update(li as int, out@[li as int]));
                    assert(out@[li as int]@ == out0[li as int]@.push(lv@[i as int]));
                    assert(spec_views(out@) =~= spec_views(out0).update(
                        li as int,
                        spec_views(out0).last().push(lv@[i as int]),
                    ));
                }
            }
        }
        i = i + 1;
    }
    proof {
        assert(lv@.take(n as int) =~= lv@);
    }
    out
}

/// The percentage a token such as `42.3%` reports, in tenths of a percent,
/// clamped to 100%: the whole percents times ten plus the first fractional
/// digit; 0 for tokens without a usable number.
pub open spec fn spec_percent_tenths(tok: Seq<char>) -> int {
    let num = spec_num_prefix(tok);
    if !spec_mantissa_ok(num) {
        0
    } else {
        let frac = spec_frac_part(num);
        let f = if frac.len() > 0 {
            crate::strutil::spec_digit_val(frac[0])
        } else {
            0
        };
        let v = spec_digits_sat(spec_whole_part(num)) * 10 + f;
        if v > 1000 {
            1000
        } else {
            v
        }
    }
}

/// Parses a percent token into clamped tenths of a percent.
pub fn parse_percent_tenths(s: &str) -> (r: u64)
    ensures
        r == spec_percent_tenths(s@),
        r <= 1000,
{
    let sv = char_vec(s);
    let num = num_prefix(&sv);
    let nn = num.len();
    let dots = count_dots(&num);
    if nn == 0 || dots > 1 || nn <= dots {
        return 0;
    }
    let whole = before_char(&num, '.');
    proof {
        lemma_num_prefix_chars(sv@);
        assert(forall|j: int|
            0 <= j < num@.len() ==> spec_is_digit(#[trigger] num@[j]) || num@[j] == '.');
        lemma_whole_digits(num@);
        assert(whole@ == spec_whole_part(num@));
        assert(forall|j: int| 0 <= j < whole@.len() ==> spec_is_digit(#[trigger] whole@[j]));
    }
    let frac_all = dot_suffix(&num);
    let frac = if frac_all.len() > 12 {
        take_prefix(&frac_all, 12)
    } else {
        frac_all
    };
    proof {
        lemma_frac_digits(num@);
        assert(frac@ == spec_frac_part(num@));
        assert(forall|j: int| 0 <= j < frac@.len() ==> spec_is_digit(#[trigger] frac@[j]));
    }
    let w = parse_digits_sat(&whole);
    let f: u64 = if frac.len() > 0 {
        let c = frac[0];
        proof {
            assert(spec_is_digit(frac@[0]));
        }
        (c as u32 - 48) as u64
    } else {
        0
    };
    let v: u128 = (w as u128) * 10 + (f as u128);
    if v > 1000 {
        1000
    } else {
        v as u64
    }
}

/// A rate token with its `/s` suffix removed.
pub open spec fn spec_strip_rate(tok: Seq<char>) -> Seq<char> {
    if spec_ends_with(tok, "/s"@) {
        tok.take(tok.len() - 2)
    } else {
        tok
    }
}

fn strip_rate(tok: &Vec<char>) -> (r: Vec<char>)
    ensures
        r@ == spec_strip_rate(tok@),
{
    let slash_s = char_vec("/s");
    proof {
        reveal_strlit("/s");
        assert(slash_s@.len() == 2);
    }
    if ends_with(tok, &slash_s) {
        take_prefix(tok, tok.len() - 2)
    } else {
        let r = take_prefix(tok, tok.len());
        proof {
            assert(tok@.take(tok@.len() as int) =~= tok@);
        }
        r
    }
}

/// The tenths of a percent the line's last `%` token reports.
pub open spec fn spec_scan_percent(toks: Seq<Seq<char>>) -> int
    decreases toks.len(),
{
    if toks.len() == 0 {
        0
    } else if spec_contains_seq(toks.last(), "%"@) {
        spec_percent_tenths(toks.last())
    } else {
        spec_scan_percent(toks.drop_last())
    }
}

/// The token following the last occurrence of `key` that has one.
pub open spec fn spec_scan_keyed(toks: Seq<Seq<char>>, key: Seq<char>) -> Option<Seq<char>>
    decreases toks.len(),
{
    if toks.len() < 2 {
        None
    } else if toks[toks.len() - 2] == key {
        Some(toks.last())
    } else {
        spec_scan_keyed(toks.drop_last(), key)
    }
}

/// Whether a line is an extractor progress line: tagged `[download]` and
/// carrying a percentage.
pub open spec fn spec_is_progress_line(s: Seq<char>) -> bool {
    spec_contains_seq(s, "[download]"@) && spec_contains_seq(s, "%"@)
}

/// The values one extractor progress line reports.
#[derive(Debug, Clone, Copy)]
pub struct ProgressLine {
    /// Tenths of a percent of the current part, at most 1000.
    pub percent_tenths: u64,
    /// The current part's total size in bytes.
    pub total: u64,
    /// Transfer speed in bytes per second.
    pub speed: u64,
    /// Seconds remaining.
    pub eta: u64,
}

/// Dissects one extractor progress line (`[download]  42.3% of 14.31MiB at
/// 1.50MiB/s ETA 00:05`): the last `%` token gives the percentage, the
/// token after `of` the part's size, after `at` the rate (its `/s`
/// dropped), after `ETA` the countdown; missing pieces read as zero.
pub fn parse_progress_line(line: &str) -> (r: Option<ProgressLine>)
    ensures
        match r {
            Some(p) => {
                let toks = spec_tokens(line@);
                &&& spec_is_progress_line(line@)
                &&& p.percent_tenths == spec_scan_percent(toks)
                &&& p.percent_tenths <= 1000
                &&& p.total == (match spec_scan_keyed(toks, "of"@) {
                    Some(v) => spec_parse_size(v),
                    None => 0,
                })
                &&& p.speed == (match spec_scan_keyed(toks, "at"@) {
                    Some(v) => spec_parse_size(spec_strip_rate(v)),
                    None => 0,
                })
                &&& p.eta == (match spec_scan_keyed(toks, "ETA"@) {
                    Some(v) => spec_parse_eta(v),
                    None => 0,
                })
            }
            None => !spec_is_progress_line(line@),
        },
{
    if !str_contains(line, "[download]") || !str_contains(line, "%") {
        return None;
    }
    let toks = tokenize(line);
    let n = toks.len();
    let key_of = char_vec("of");
    let key_at = char_vec("at");
    let key_eta = char_vec("ETA");
    let pct_mark = char_vec("%");
    let mut percent_tenths: u64 = 0;
    let mut total: u64 = 0;
    let mut speed: u64 = 0;
    let mut eta: u64 = 0;
    let mut i: usize = 0;
    proof {
        assert(spec_views(toks@).take(0) =~= Seq::<Seq<char>>::empty());
    }
    while i < n
        invariant
            n == toks@.len(),
            spec_views(toks@) == spec_tokens(line@),
            key_of@ == "of"@,
            key_at@ == "at"@,
            key_eta@ == "ETA"@,
            pct_mark@ == "%"@,
            i <= n,
            percent_tenths == spec_scan_percent(spec_views(toks@).take(i as int)),
            percent_tenths <= 1000,
            total == (match spec_scan_keyed(spec_views(toks@).take(i as int), "of"@) {
                Some(v) => spec_parse_size(v),
                None => 0,
            }),
            speed == (match spec_scan_keyed(spec_views(toks@).take(i as int), "at"@) {
                Some(v) => spec_parse_size(spec_strip_rate(v)),
                None => 0,
            }),
            eta == (match spec_scan_keyed(spec_views(toks@).take(i as int), "ETA"@) {
                Some(v) => spec_parse_eta(v),
                None => 0,
            }),
        decreases n - i,
    {
        proof {
            let tv = spec_views(toks@);
            assert(tv.take(i + 1).drop_last() =~= tv.take(i as int));
            assert(tv.take(i + 1).last() == tv[i as int]);
            if i >= 1 {
                assert(tv.take(i + 1)[i - 1] == tv[i - 1]);
            }
        }
        let tok = &toks[i];
        if contains_sub(tok, &pct_mark) {
            percent_tenths = parse_percent_tenths(string_of_chars(tok).as_str());
        }
        if i >= 1 {
            let prev = &toks[i - 1];
            if eq_chars(prev, &key_of) {
                total = parse_size(string_of_chars(tok).as_str());
            }
            if eq_chars(prev, &key_at) {
                let stripped = strip_rate(tok);
                speed = parse_size(string_of_chars(&stripped).as_str());
            }
            if eq_chars(prev, &key_eta) {
                eta = parse_eta(string_of_chars(tok).as_str());
            }
        }
        i = i + 1;
    }
    proof {
        assert(spec_views(toks@).take(n as int) =~= spec_views(toks@));
    }
    Some(ProgressLine { percent_tenths, total, speed, eta })
}

/// Equality of two character vectors.
fn eq_chars(a: &Vec<char>, b: &Vec<char>) -> (r: bool)
    ensures
        r == (a@ == b@),
{
    let n = a.len();
    if n != b.len() {
        return false;
    }
    let mut i: usize = 0;
    while i < n
        invariant
            n == a@.len() == b@.len(),
            i <= n,
            forall|j: int| 0 <= j < i ==> a@[j] == b@[j],
        decreases n - i,
    {
        if a[i] != b[i] {
            return false;
        }
        i = i + 1;
    }
    assert(a@ =~= b@);
    true
}


} // verus!
