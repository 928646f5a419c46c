//! Character-level string utilities: bridging `&str`/`String` to `Vec<char>`,
//! decimal parsing and formatting, and lexicographic comparison.

use vstd::prelude::*;

verus! {

/// Relies on `str::chars`: yields exactly the characters of the string, in order.
#[verifier::external_body]
pub fn char_vec(s: &str) -> (r: Vec<char>)
    ensures
        r@ == s@,
{
    s.chars().collect()
}

/// Relies on `String: FromIterator<char>`: collecting characters builds the
/// string of exactly those characters, in order.
#[verifier::external_body]
pub fn string_of_chars(v: &Vec<char>) -> (r: String)
    ensures
        r@ == v@,
{
    v.iter().collect()
}

/// Equality of two strings, decided character by character.
pub fn str_eq(a: &str, b: &str) -> (r: bool)
    ensures
        r == (a@ == b@),
{
    let av = char_vec(a);
    let bv = char_vec(b);
    if av.len() != bv.len() {
        assert(a@.len() != b@.len());
        return false;
    }
    let n = av.len();
    let mut i: usize = 0;
    while i < n
        invariant
            n == av.len() == bv.len(),
            av@ == a@,
            bv@ == b@,
            i <= n,
            forall|j: int| 0 <= j < i ==> a@[j] == b@[j],
        decreases n - i,
    {
        if av[i] != bv[i] {
            assert(a@[i as int] != b@[i as int]);
            return false;
        }
        i = i + 1;
    }
    assert(a@ =~= b@);
    true
}

pub open spec fn spec_is_digit(c: char) -> bool {
    48 <= c as u32 <= 57
}

pub open spec fn spec_digit_val(c: char) -> int {
    c as u32 - 48
}

pub open spec fn spec_all_digits(s: Seq<char>) -> bool {
    forall|i: int| 0 <= i < s.len() ==> spec_is_digit(s[i])
}

/// The number denoted by a sequence of decimal digits (most significant first).
pub open spec fn spec_digits_val(s: Seq<char>) -> int
    decreases s.len(),
{
    if s.len() == 0 {
        0
    } else {
        spec_digits_val(s.drop_last()) * 10 + spec_digit_val(s.last())
    }
}

pub proof fn lemma_digits_val_take_step(s: Seq<char>, i: int)
    requires
        0 <= i < s.len(),
    ensures
        spec_digits_val(s.take(i + 1)) == spec_digits_val(s.take(i)) * 10 + spec_digit_val(s[i]),
{
    assert(s.take(i + 1).drop_last() =~= s.take(i));
    assert(s.take(i + 1).last() == s[i]);
}

pub proof fn lemma_digits_val_nonneg(s: Seq<char>)
    requires
        spec_all_digits(s),
    ensures
        spec_digits_val(s) >= 0,
    decreases s.len(),
{
    if s.len() > 0 {
        lemma_digits_val_nonneg(s.drop_last());
    }
}

/// Extending a digit string to the right can only increase its value.
pub proof fn lemma_digits_val_prefix_le(s: Seq<char>, i: int)
    requires
        spec_all_digits(s),
        0 <= i <= s.len(),
    ensures
        spec_digits_val(s.take(i)) <= spec_digits_val(s),
    decreases s.len() - i,
{
    if i == s.len() {
        assert(s.take(i) =~= s);
    } else {
        lemma_digits_val_take_step(s, i);
        lemma_digits_val_nonneg(s.take(i));
        assert(spec_digits_val(s.take(i)) * 10 >= spec_digits_val(s.take(i))) by (nonlinear_arith)
            requires
                spec_digits_val(s.take(i)) >= 0,
        ;
        lemma_digits_val_prefix_le(s, i + 1);
    }
}

/// Whether a digit string parses as a `u64`: non-empty, all digits, in range.
pub open spec fn spec_parse_u64_ok(s: Seq<char>) -> bool {
    s.len() > 0 && spec_all_digits(s) && spec_digits_val(s) <= u64::MAX
}

/// Parse a non-empty all-decimal string as a `u64`; `None` on any other input
/// (empty, a non-digit anywhere, or a value above `u64::MAX`).
pub fn parse_u64_chars(v: &Vec<char>) -> (r: Option<u64>)
    ensures
        match r {
            Some(n) => spec_parse_u64_ok(v@) && n == spec_digits_val(v@),
            None => !spec_parse_u64_ok(v@),
        },
{
    let n = v.len();
    if n == 0 {
        return None;
    }
    let mut acc: u64 = 0;
    let mut i: usize = 0;
    while i < n
        invariant
            n == v@.len(),
            i <= n,
            spec_all_digits(v@.take(i as int)),
            acc == spec_digits_val(v@.take(i as int)),
        decreases n - i,
    {
        let c = v[i];
        let cu: u32 = c as u32;
        if cu < 48 || cu > 57 {
            assert(!spec_is_digit(v@[i as int]));
            return None;
        }
        let d: u64 = (cu - 48) as u64;
        proof {
            lemma_digits_val_take_step(v@, i as int);
        }
        let step = match acc.checked_mul(10) {
            Some(m) => m.checked_add(d),
            None => None,
        };
        match step {
            Some(next) => {
                acc = next;
            }
            None => {
                proof {
                    if spec_all_digits(v@) {
                        lemma_digits_val_prefix_le(v@, i + 1);
                        assert(spec_digits_val(v@) > u64::MAX);
                    }
                }
                return None;
            }
        }
        i = i + 1;
        assert(v@.take(i as int).drop_last() =~= v@.take(i as int - 1));
    }
    assert(v@.take(n as int) =~= v@);
    Some(acc)
}

/// Parse a whole string as a decimal `u64`.
pub fn parse_u64(s: &str) -> (r: Option<u64>)
    ensures
        match r {
            Some(n) => spec_parse_u64_ok(s@) && n == spec_digits_val(s@),
            None => !spec_parse_u64_ok(s@),
        },
{
    let v = char_vec(s);
    parse_u64_chars(&v)
}

pub open spec fn spec_digit_char(d: int) -> char {
    (48 + d) as char
}

/// The canonical decimal rendering of a natural number.
pub open spec fn spec_fmt_u64(n: int) -> Seq<char>
    decreases n,
{
    if n <= 0 {
        seq!['0']
    } else if n < 10 {
        seq![spec_digit_char(n)]
    } else {
        spec_fmt_u64(n / 10).push(spec_digit_char(n % 10))
    }
}

proof fn lemma_u32_char_roundtrip(d: u32)
    requires
        d < 0xD800,
    ensures
        (d as char) as u32 == d,
{
    vstd::utf8::char_u32_cast(d as char, d);
}

pub proof fn lemma_fmt_u64_digits(n: int)
    requires
        n >= 0,
    ensures
        spec_all_digits(spec_fmt_u64(n)),
        spec_fmt_u64(n).len() > 0,
        spec_digits_val(spec_fmt_u64(n)) == n,
        spec_fmt_u64(n).len() > 1 ==> spec_fmt_u64(n)[0] != '0',
    decreases n,
{
    if n < 10 {
        lemma_u32_char_roundtrip((48 + n) as u32);
        let s = spec_fmt_u64(n);
        assert(s.drop_last() =~= Seq::<char>::empty());
        if n == 0 {
            assert('0' as u32 == 48);
            vstd::utf8::char_u32_cast('0', 48);
            assert('0' == spec_digit_char(0));
            assert(s.last() == spec_digit_char(0));
        } else {
            assert(s.last() == spec_digit_char(n));
        }
        assert(s.len() == 1);
        assert(spec_digits_val(s.drop_last()) == 0);
        assert(spec_digits_val(s) == spec_digits_val(s.drop_last()) * 10 + spec_digit_val(
            s.last(),
        ));
    } else {
        lemma_fmt_u64_digits(n / 10);
        lemma_u32_char_roundtrip((48 + n % 10) as u32);
        let s = spec_fmt_u64(n);
        let h = spec_fmt_u64(n / 10);
        assert(s =~= h.push(spec_digit_char(n % 10)));
        assert(s.drop_last() =~= h);
        assert(s.last() == spec_digit_char(n % 10));
        assert(spec_digit_val(s.last()) == n % 10);
        assert(spec_digits_val(s) == spec_digits_val(h) * 10 + n % 10);
        assert(s[0] == h[0]);
        if h.len() == 1 {
            // A one-digit head renders a value from 1 to 9, never '0'.
            assert(h.drop_last() =~= Seq::<char>::empty());
            assert(h.last() == h[0]);
            assert(spec_digits_val(Seq::<char>::empty()) == 0);
            assert(spec_digits_val(h) == spec_digit_val(h[0]));
            assert('0' as u32 == 48);
            if h[0] == '0' {
                assert(spec_digits_val(h) == 0);
            }
        }
        assert(spec_digits_val(s) == (n / 10) * 10 + n % 10);
        assert(forall|i: int| 0 <= i < s.len() - 1 ==> s[i] == h[i]);
        assert forall|i: int| 0 <= i < s.len() implies spec_is_digit(#[trigger] s[i]) by {
            if i < s.len() - 1 {
                assert(spec_is_digit(h[i]));
            }
        }
    }
}

/// Decimal rendering of a `u64` as characters.
pub fn fmt_u64_chars(n: u64) -> (r: Vec<char>)
    ensures
        r@ == spec_fmt_u64(n as int),
{
    if n == 0 {
        let mut v: Vec<char> = Vec::new();
        v.push('0');
        assert(v@ =~= spec_fmt_u64(0));
        return v;
    }
    let mut rest: u64 = n;
    let mut v: Vec<char> = Vec::new();
    while rest > 0
        invariant
            n > 0,
            rest >= 0,
            rest > 0 || v@.len() > 0,
            rest > 0 ==> spec_fmt_u64(n as int) =~= spec_fmt_u64(rest as int) + v@,
            rest == 0 ==> spec_fmt_u64(n as int) =~= v@,
        decreases rest,
    {
        let d: u64 = rest % 10;
        let c: char = (48 + d as u8) as char;
        proof {
            lemma_u32_char_roundtrip((48 + d) as u32);
            if rest >= 10 {
                assert(spec_fmt_u64(rest as int) =~= spec_fmt_u64(rest as int / 10).push(
                    spec_digit_char(rest as int % 10),
                ));
            } else {
                assert(spec_fmt_u64(rest as int) =~= seq![spec_digit_char(rest as int)]);
            }
        }
        v.insert(0, c);
        rest = rest / 10;
        proof {
            if rest > 0 {
                assert(spec_fmt_u64(n as int) =~= spec_fmt_u64(rest as int) + v@);
            } else {
                assert(spec_fmt_u64(n as int) =~= v@);
            }
        }
    }
    v
}

/// Decimal rendering of a `u64` as a `String`.
pub fn fmt_u64(n: u64) -> (r: String)
    ensures
        r@ == spec_fmt_u64(n as int),
{
    let v = fmt_u64_chars(n);
    string_of_chars(&v)
}

/// Rendering a number and parsing it back yields the number.
pub proof fn lemma_fmt_parse_roundtrip(n: u64)
    ensures
        spec_parse_u64_ok(spec_fmt_u64(n as int)),
        spec_digits_val(spec_fmt_u64(n as int)) == n,
{
    lemma_fmt_u64_digits(n as int);
}

/// A digit string without a leading zero is the canonical rendering of its
/// value: parsing and re-rendering gives the string back.
pub proof fn lemma_canonical_digits(s: Seq<char>)
    requires
        spec_all_digits(s),
        s.len() >= 1,
        s[0] != '0' || s.len() == 1,
        spec_digits_val(s) <= u64::MAX,
    ensures
        spec_fmt_u64(spec_digits_val(s)) == s,
    decreases s.len(),
{
    lemma_digits_val_nonneg(s);
    let v = spec_digits_val(s);
    if s.len() == 1 {
        assert(s.drop_last() =~= Seq::<char>::empty());
        assert(s.last() == s[0]);
        assert(spec_digits_val(Seq::<char>::empty()) == 0);
        assert(v == spec_digit_val(s[0]));
        assert(spec_is_digit(s[0]));
        assert(48 <= s[0] as u32 <= 57);
        lemma_u32_char_roundtrip(s[0] as u32);
        if v == 0 {
            assert('0' as u32 == 48);
            vstd::utf8::char_u32_cast('0', 48);
            vstd::utf8::char_u32_cast(s[0], 48);
            assert(spec_fmt_u64(0) =~= seq!['0']);
            assert(s[0] == '0');
            assert(spec_fmt_u64(v) =~= s);
        } else {
            assert(spec_digit_char(v) == ((48 + v) as char));
            vstd::utf8::char_u32_cast(s[0], s[0] as u32);
            assert((s[0] as u32) as char == s[0]);
            assert(spec_fmt_u64(v) =~= seq![spec_digit_char(v)]);
            assert(spec_fmt_u64(v) =~= s);
        }
    } else {
        let p = s.drop_last();
        let d = spec_digit_val(s.last());
        assert(forall|j: int| 0 <= j < p.len() ==> p[j] == s[j]);
        assert(p[0] == s[0] && p[0] != '0');
        lemma_digits_val_nonneg(p);
        assert(spec_is_digit(p[0]));
        assert(spec_digit_val(p[0]) >= 1) by {
            assert(48 <= p[0] as u32 <= 57);
            if spec_digit_val(p[0]) == 0 {
                assert(p[0] as u32 == 48);
                assert('0' as u32 == 48);
                vstd::utf8::char_u32_cast('0', 48);
                vstd::utf8::char_u32_cast(p[0], 48);
            }
        }
        assert(p.take(1) =~= seq![p[0]]);
        assert(p.take(1).drop_last() =~= Seq::<char>::empty());
        assert(p.take(1).last() == p[0]);
        assert(spec_digits_val(Seq::<char>::empty()) == 0);
        assert(spec_digits_val(p.take(1)) == spec_digit_val(p[0]));
        lemma_digits_val_prefix_le(p, 1);
        assert(spec_digits_val(p) >= 1);
        assert(v == spec_digits_val(p) * 10 + d);
        assert(spec_is_digit(s.last()));
        assert(0 <= d <= 9);
        assert(spec_digits_val(p) * 10 <= v) by (nonlinear_arith)
            requires
                v == spec_digits_val(p) * 10 + d,
                d >= 0,
        ;
        lemma_canonical_digits(p);
        assert(v / 10 == spec_digits_val(p) && v % 10 == d) by (nonlinear_arith)
            requires
                v == spec_digits_val(p) * 10 + d,
                0 <= d <= 9,
                spec_digits_val(p) >= 0,
        ;
        assert(v >= 10);
        vstd::utf8::char_u32_cast(s.last(), s.last() as u32);
        assert(spec_digit_char(d) == ((48 + d) as char));
        assert((s.last() as u32) as char == s.last());
        assert(spec_fmt_u64(v) == spec_fmt_u64(v / 10).push(spec_digit_char(v % 10)));
        assert(spec_fmt_u64(v) =~= p.push(s.last()));
        assert(p.push(s.last()) =~= s);
    }
}

/// Whether `n` occurs in `h` starting at position `i`.
pub open spec fn spec_matches_at(h: Seq<char>, i: int, n: Seq<char>) -> bool {
    0 <= i && i + n.len() <= h.len() && h.subrange(i, i + n.len()) == n
}

/// Whether `n` occurs anywhere in `h`.
pub open spec fn spec_contains_seq(h: Seq<char>, n: Seq<char>) -> bool {
    exists|i: int| spec_matches_at(h, i, n)
}

/// True exactly when `h` continues with `n` at position `at`.
pub fn matches_at(h: &Vec<char>, at: usize, n: &Vec<char>) -> (r: bool)
    requires
        at + n@.len() <= h@.len(),
    ensures
        r == spec_matches_at(h@, at as int, n@),
{
    let m = n.len();
    let hn = h.len();
    let mut k: usize = 0;
    while k < m
        invariant
            hn == h@.len(),
            at + m <= hn,
            m == n@.len(),
            k <= m,
            forall|j: int| 0 <= j < k ==> h@[at + j] == n@[j],
        decreases m - k,
    {
        if h[at + k] != n[k] {
            assert(h@.subrange(at as int, at + n@.len())[k as int] == h@[at + k]);
            return false;
        }
        k = k + 1;
    }
    assert(h@.subrange(at as int, at + n@.len()) =~= n@);
    true
}

/// First position where `n` occurs in `h`, if any.
pub fn find_sub(h: &Vec<char>, n: &Vec<char>) -> (r: Option<usize>)
    ensures
        match r {
            Some(i) => spec_matches_at(h@, i as int, n@) && forall|j: int|
                0 <= j < i ==> !spec_matches_at(h@, j, n@),
            None => forall|j: int| !spec_matches_at(h@, j, n@),
        },
{
    let hn = h.len();
    let m = n.len();
    if m > hn {
        return None;
    }
    if m == 0 {
        assert(h@.subrange(0, 0) =~= n@);
        return Some(0);
    }
    let last = hn - m;
    let mut i: usize = 0;
    loop
        invariant
            hn == h@.len(),
            m == n@.len(),
            1 <= m <= hn,
            last == hn - m,
            i <= last + 1,
            forall|j: int| 0 <= j < i ==> !spec_matches_at(h@, j, n@),
        decreases last + 1 - i,
    {
        if i > last {
            assert forall|j: int| !spec_matches_at(h@, j, n@) by {
                if spec_matches_at(h@, j, n@) {
                    assert(0 <= j <= last);
                }
            }
            return None;
        }
        if matches_at(h, i, n) {
            return Some(i);
        }
        i = i + 1;
    }
}

/// Whether the needle occurs anywhere in the haystack.
pub fn contains_sub(h: &Vec<char>, n: &Vec<char>) -> (r: bool)
    ensures
        r == spec_contains_seq(h@, n@),
{
    match find_sub(h, n) {
        Some(_) => true,
        None => false,
    }
}

/// Substring test on strings.
pub fn str_contains(h: &str, n: &str) -> (r: bool)
    ensures
        r == spec_contains_seq(h@, n@),
{
    let hv = char_vec(h);
    let nv = char_vec(n);
    contains_sub(&hv, &nv)
}

/// Position of the first occurrence of `n` in `h` (meaningful when `h`
/// contains `n`).
pub open spec fn spec_first_match(h: Seq<char>, n: Seq<char>) -> int {
    choose|i: int|
        spec_matches_at(h, i, n) && forall|j: int| 0 <= j < i ==> !spec_matches_at(h, j, n)
}

pub proof fn lemma_first_match_is(h: Seq<char>, n: Seq<char>, i: int)
    requires
        spec_matches_at(h, i, n),
        forall|j: int| 0 <= j < i ==> !spec_matches_at(h, j, n),
    ensures
        spec_first_match(h, n) == i,
{
    let w = spec_first_match(h, n);
    assert(spec_matches_at(h, w, n) && forall|j: int| 0 <= j < w ==> !spec_matches_at(h, j, n));
    if w < i {
        assert(!spec_matches_at(h, w, n));
    } else if i < w {
        assert(!spec_matches_at(h, i, n));
    }
}

/// A needle matching nowhere is not contained.
pub proof fn lemma_no_match_no_contains(h: Seq<char>, n: Seq<char>)
    requires
        forall|j: int| !spec_matches_at(h, j, n),
    ensures
        !spec_contains_seq(h, n),
{
    if spec_contains_seq(h, n) {
        let w = choose|i: int| spec_matches_at(h, i, n);
        assert(!spec_matches_at(h, w, n));
    }
}

/// The ASCII-lowercased form of a character.
pub open spec fn spec_lower_char(c: char) -> char {
    if 65 <= c as u32 <= 90 {
        ((c as u32) + 32) as char
    } else {
        c
    }
}

/// A sequence with every ASCII letter lowercased.
pub open spec fn spec_lower(s: Seq<char>) -> Seq<char> {
    s.map_values(|c: char| spec_lower_char(c))
}

/// ASCII-lowercases a string; other characters are untouched.
pub fn ascii_lower(s: &str) -> (r: String)
    ensures
        r@ == spec_lower(s@),
{
    let v = char_vec(s);
    let n = v.len();
    let mut out: Vec<char> = Vec::new();
    let mut i: usize = 0;
    while i < n
        invariant
            n == v@.len(),
            v@ == s@,
            i <= n,
            out@ =~= spec_lower(s@).subrange(0, i as int),
        decreases n - i,
    {
        let c = v[i];
        let cu: u32 = c as u32;
        if cu >= 65 && cu <= 90 {
            out.push(((cu + 32) as u8) as char);
        } else {
            out.push(c);
        }
        i = i + 1;
        proof {
            assert(out@ =~= spec_lower(s@).subrange(0, i as int));
        }
    }
    proof {
        assert(out@ =~= spec_lower(s@));
    }
    string_of_chars(&out)
}

/// Lexicographic order on character sequences (by code point).
pub open spec fn spec_lex_le(a: Seq<char>, b: Seq<char>) -> bool
    decreases a.len(),
{
    if a.len() == 0 {
        true
    } else if b.len() == 0 {
        false
    } else if (a.first() as u32) < (b.first() as u32) {
        true
    } else if (a.first() as u32) > (b.first() as u32) {
        false
    } else {
        spec_lex_le(a.drop_first(), b.drop_first())
    }
}

/// Lexicographic `<=` on strings, by Unicode code point; used to order
/// ISO-8601 timestamps, whose lexicographic order is their chronological one.
pub fn str_lex_le(a: &str, b: &str) -> (r: bool)
    ensures
        r == spec_lex_le(a@, b@),
{
    let av = char_vec(a);
    let bv = char_vec(b);
    let an = av.len();
    let bn = bv.len();
    let mut i: usize = 0;
    proof {
        assert(a@.skip(0) =~= a@);
        assert(b@.skip(0) =~= b@);
    }
    loop
        invariant
            av@ == a@,
            bv@ == b@,
            an == a@.len(),
            bn == b@.len(),
            i <= an,
            i <= bn,
            spec_lex_le(a@, b@) == spec_lex_le(a@.skip(i as int), b@.skip(i as int)),
        decreases an - i,
    {
        if i == an {
            assert(a@.skip(i as int).len() == 0);
            return true;
        }
        if i == bn {
            assert(b@.skip(i as int).len() == 0 && a@.skip(i as int).len() > 0);
            return false;
        }
        let ca: u32 = av[i] as u32;
        let cb: u32 = bv[i] as u32;
        proof {
            let sa = a@.skip(i as int);
            let sb = b@.skip(i as int);
            assert(sa.first() == a@[i as int] && sb.first() == b@[i as int]);
            assert(sa.drop_first() =~= a@.skip(i + 1));
            assert(sb.drop_first() =~= b@.skip(i + 1));
        }
        if ca < cb {
            return true;
        }
        if ca > cb {
            return false;
        }
        i = i + 1;
    }
}

} // verus!
