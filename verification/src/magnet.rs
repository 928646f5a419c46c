//! Info hashes from magnet links: the token after `btih:` up to the next
//! `&`, accepted as 32 base32 characters (decoded and re-encoded as hex) or
//! as 40 hex characters (lowercased), always yielding 40 lowercase hex.

use vstd::prelude::*;
use crate::strutil::{char_vec, string_of_chars, find_sub, spec_contains_seq,
    spec_lower, ascii_lower, spec_first_match, lemma_first_match_is, lemma_no_match_no_contains};
use crate::filename::{before_char, suffix_chars, spec_before};

verus! {

/// A lowercase hex digit for a value below 16.
pub open spec fn spec_hex_char(d: int) -> char {
    if d < 10 {
        (48 + d) as char
    } else {
        (87 + d) as char
    }
}

/// Lowercase hex encoding of bytes, two digits per byte.
pub open spec fn spec_to_hex(bytes: Seq<u8>) -> Seq<char>
    decreases bytes.len(),
{
    if bytes.len() == 0 {
        Seq::empty()
    } else {
        spec_to_hex(bytes.drop_last()) + seq![
            spec_hex_char(bytes.last() as int / 16),
            spec_hex_char(bytes.last() as int % 16),
        ]
    }
}

/// Lowercase hex encoding of a byte vector.
pub fn to_hex(bytes: &Vec<u8>) -> (r: String)
    ensures
        r@ == spec_to_hex(bytes@),
{
    let n = bytes.len();
    let mut out: Vec<char> = Vec::new();
    let mut i: usize = 0;
    while i < n
        invariant
            n == bytes@.len(),
            i <= n,
            out@ =~= spec_to_hex(bytes@.take(i as int)),
        decreases n - i,
    {
        proof {
            assert(bytes@.take(i + 1).drop_last() =~= bytes@.take(i as int));
            assert(bytes@.take(i + 1).last() == bytes@[i as int]);
        }
        let b = bytes[i];
        let hi = b / 16;
        let lo = b % 16;
        out.push(hex_digit(hi));
        out.push(hex_digit(lo));
        i = i + 1;
        proof {
            assert(out@ =~= spec_to_hex(bytes@.take(i as int)));
        }
    }
    proof {
        assert(bytes@.take(n as int) =~= bytes@);
    }
    string_of_chars(&out)
}

fn hex_digit(d: u8) -> (c: char)
    requires
        d < 16,
    ensures
        c == spec_hex_char(d as int),
{
    if d < 10 {
        (48 + d) as char
    } else {
        (87 + d) as char
    }
}

/// The base32 value of a character of the RFC 4648 alphabet, either case.
pub open spec fn spec_b32_val(c: char) -> int {
    if 65 <= c as u32 <= 90 {
        c as u32 - 65
    } else if 97 <= c as u32 <= 122 {
        c as u32 - 97
    } else {
        c as u32 - 50 + 26
    }
}

pub open spec fn spec_is_b32(c: char) -> bool {
    (65 <= c as u32 <= 90) || (97 <= c as u32 <= 122) || (50 <= c as u32 <= 55)
}

pub open spec fn spec_all_b32(s: Seq<char>) -> bool {
    forall|i: int| 0 <= i < s.len() ==> spec_is_b32(#[trigger] s[i])
}

/// The integer a base32 block denotes, five bits per character.
pub open spec fn spec_b32_int(s: Seq<char>) -> int
    decreases s.len(),
{
    if s.len() == 0 {
        0
    } else {
        spec_b32_int(s.drop_last()) * 32 + spec_b32_val(s.last())
    }
}

/// The five bytes denoted by eight base32 characters (forty bits).
pub open spec fn spec_b32_block_bytes(s: Seq<char>) -> Seq<u8> {
    let v = spec_b32_int(s);
    seq![
        ((v / 0x100000000) % 256) as u8,
        ((v / 0x1000000) % 256) as u8,
        ((v / 0x10000) % 256) as u8,
        ((v / 0x100) % 256) as u8,
        (v % 256) as u8,
    ]
}

/// The twenty bytes denoted by thirty-two base32 characters.
pub open spec fn spec_b32_decode32(s: Seq<char>) -> Seq<u8> {
    spec_b32_block_bytes(s.subrange(0, 8)) + spec_b32_block_bytes(s.subrange(8, 16))
        + spec_b32_block_bytes(s.subrange(16, 24)) + spec_b32_block_bytes(s.subrange(24, 32))
}

proof fn lemma_b32_int_bound(s: Seq<char>)
    requires
        spec_all_b32(s),
    ensures
        0 <= spec_b32_int(s) < spec_pow32(s.len() as nat),
    decreases s.len(),
{
    if s.len() == 0 {
    } else {
        lemma_b32_int_bound(s.drop_last());
        assert(spec_is_b32(s.last()));
        assert(0 <= spec_b32_val(s.last()) < 32);
        let p = spec_pow32((s.len() - 1) as nat);
        assert(spec_b32_int(s.drop_last()) * 32 + 32 <= p * 32) by (nonlinear_arith)
            requires
                spec_b32_int(s.drop_last()) < p,
        ;
    }
}

pub open spec fn spec_pow32(n: nat) -> int
    decreases n,
{
    if n == 0 {
        1
    } else {
        32 * spec_pow32((n - 1) as nat)
    }
}

/// Decodes the eight base32 characters starting at `at` into five bytes.
fn decode_b32_block(v: &Vec<char>, at: usize) -> (r: [u8; 5])
    requires
        at + 8 <= v@.len(),
        spec_all_b32(v@.subrange(at as int, at + 8)),
    ensures
        r@ == spec_b32_block_bytes(v@.subrange(at as int, at + 8)),
{
    let ghost block = v@.subrange(at as int, at + 8);
    let n = v.len();
    let mut acc: u64 = 0;
    let mut i: usize = 0;
    while i < 8
        invariant
            at + 8 <= n == v@.len(),
            block == v@.subrange(at as int, at + 8),
            spec_all_b32(block),
            i <= 8,
            acc == spec_b32_int(block.take(i as int)),
            acc < 0x10000000000,
        decreases 8 - i,
    {
        proof {
            assert(block.take(i + 1).drop_last() =~= block.take(i as int));
            assert(block.take(i + 1).last() == block[i as int]);
            assert(spec_all_b32(block.take(i + 1)));
            lemma_b32_int_bound(block.take(i + 1));
            assert(spec_pow32(8) == 0x10000000000) by {
                assert(spec_pow32(0) == 1);
                assert(spec_pow32(1) == 32);
                assert(spec_pow32(2) == 1024);
                assert(spec_pow32(3) == 32768);
                assert(spec_pow32(4) == 1048576);
                assert(spec_pow32(5) == 33554432);
                assert(spec_pow32(6) == 1073741824);
                assert(spec_pow32(7) == 34359738368);
                assert(spec_pow32(8) == 1099511627776);
            }
            lemma_pow32_mono((i + 1) as nat, 8);
        }
        let c = v[at + i];
        let cu: u32 = c as u32;
        let val: u64 = if cu >= 65 && cu <= 90 {
            (cu - 65) as u64
        } else if cu >= 97 && cu <= 122 {
            (cu - 97) as u64
        } else {
            (cu - 50 + 26) as u64
        };
        proof {
            assert(spec_is_b32(block[i as int]));
        }
        acc = acc * 32 + val;
        i = i + 1;
    }
    proof {
        assert(block.take(8) =~= block);
    }
    let b0: u8 = ((acc / 0x100000000) % 256) as u8;
    let b1: u8 = ((acc / 0x1000000) % 256) as u8;
    let b2: u8 = ((acc / 0x10000) % 256) as u8;
    let b3: u8 = ((acc / 0x100) % 256) as u8;
    let b4: u8 = (acc % 256) as u8;
    let r = [b0, b1, b2, b3, b4];
    proof {
        assert(r@ =~= spec_b32_block_bytes(block));
    }
    r
}

proof fn lemma_pow32_mono(a: nat, b: nat)
    requires
        a <= b,
    ensures
        spec_pow32(a) <= spec_pow32(b),
    decreases b,
{
    if a < b {
        lemma_pow32_mono(a, (b - 1) as nat);
        lemma_pow32_pos((b - 1) as nat);
    }
}

proof fn lemma_pow32_pos(n: nat)
    ensures
        spec_pow32(n) >= 1,
    decreases n,
{
    if n > 0 {
        lemma_pow32_pos((n - 1) as nat);
    }
}

pub open spec fn spec_is_hex_char(c: char) -> bool {
    (48 <= c as u32 <= 57) || (65 <= c as u32 <= 70) || (97 <= c as u32 <= 102)
}

pub open spec fn spec_all_hex(s: Seq<char>) -> bool {
    forall|i: int| 0 <= i < s.len() ==> spec_is_hex_char(#[trigger] s[i])
}

/// The token following the first `btih:` in a magnet link, up to `&`.
pub open spec fn spec_btih_token(url: Seq<char>) -> Seq<char> {
    spec_before(url.skip(spec_first_match(url, "btih:"@) + 5), '&')
}

/// The info hash named by a magnet link: the token after `btih:` up to the
/// next `&`, decoded from 32 base32 characters or accepted as 40 hex
/// characters, and rendered as 40 lowercase hex characters. `None` when no
/// `btih:` marker is present or the token has neither form.
pub fn parse_info_hash(url: &str) -> (r: Option<String>)
    ensures
        match r {
            Some(h) => {
                &&& spec_contains_seq(url@, "btih:"@)
                &&& ({
                    let t = spec_btih_token(url@);
                    if t.len() == 32 && spec_all_b32(t) {
                        h@ == spec_to_hex(spec_b32_decode32(t))
                    } else {
                        t.len() == 40 && spec_all_hex(t) && h@ == spec_lower(t)
                    }
                })
            }
            None => !spec_contains_seq(url@, "btih:"@) || ({
                let t = spec_btih_token(url@);
                &&& !(t.len() == 32 && spec_all_b32(t))
                &&& !(t.len() == 40 && spec_all_hex(t))
            }),
        },
{
    let uv = char_vec(url);
    let un = uv.len();
    let pat = char_vec("btih:");
    let pos = match find_sub(&uv, &pat) {
        Some(p) => p,
        None => {
            proof {
                lemma_no_match_no_contains(url@, "btih:"@);
            }
            return None;
        }
    };
    proof {
        reveal_strlit("btih:");
        assert(pat@.len() == 5);
        lemma_first_match_is(url@, "btih:"@, pos as int);
    }
    let rest = suffix_chars(&uv, pos + 5);
    let token = before_char(&rest, '&');
    proof {
        assert(token@ == spec_btih_token(url@));
        assert(spec_contains_seq(url@, "btih:"@));
    }
    let tn = token.len();
    if tn == 32 {
        let mut i: usize = 0;
        while i < 32
            invariant
                token@ == spec_btih_token(url@),
                tn == token@.len() == 32,
                i <= 32,
                forall|j: int| 0 <= j < i ==> spec_is_b32(#[trigger] token@[j]),
            decreases 32 - i,
        {
            let c = token[i];
            let cu: u32 = c as u32;
            if !((cu >= 65 && cu <= 90) || (cu >= 97 && cu <= 122) || (cu >= 50 && cu <= 55)) {
                proof {
                    assert(!spec_is_b32(token@[i as int]));
                }
                return None;
            }
            i = i + 1;
        }
        let decoded: Option<String> = {
            let mut bytes: Vec<u8> = Vec::new();
            proof {
                assert(spec_all_b32(token@));
                assert(spec_all_b32(token@.subrange(0, 8)));
                assert(spec_all_b32(token@.subrange(8, 16)));
                assert(spec_all_b32(token@.subrange(16, 24)));
                assert(spec_all_b32(token@.subrange(24, 32)));
            }
            let blk0 = decode_b32_block(&token, 0);
            let blk1 = decode_b32_block(&token, 8);
            let blk2 = decode_b32_block(&token, 16);
            let blk3 = decode_b32_block(&token, 24);
            let mut k: usize = 0;
            while k < 5
                invariant
                    k <= 5,
                    blk0@.len() == 5,
                    bytes@ =~= blk0@.subrange(0, k as int),
                decreases 5 - k,
            {
                bytes.push(blk0[k]);
                k = k + 1;
            }
            let mut k1: usize = 0;
            while k1 < 5
                invariant
                    k1 <= 5,
                    blk0@.len() == 5 && blk1@.len() == 5,
                    bytes@ =~= blk0@ + blk1@.subrange(0, k1 as int),
                decreases 5 - k1,
            {
                bytes.push(blk1[k1]);
                k1 = k1 + 1;
            }
            let mut k2: usize = 0;
            while k2 < 5
                invariant
                    k2 <= 5,
                    blk0@.len() == 5 && blk1@.len() == 5 && blk2@.len() == 5,
                    bytes@ =~= blk0@ + blk1@ + blk2@.subrange(0, k2 as int),
                decreases 5 - k2,
            {
                bytes.push(blk2[k2]);
                k2 = k2 + 1;
            }
            let mut k3: usize = 0;
            while k3 < 5
                invariant
                    k3 <= 5,
                    blk0@.len() == 5 && blk1@.len() == 5 && blk2@.len() == 5 && blk3@.len() == 5,
                    bytes@ =~= blk0@ + blk1@ + blk2@ + blk3@.subrange(0, k3 as int),
                decreases 5 - k3,
            {
                bytes.push(blk3[k3]);
                k3 = k3 + 1;
            }
            proof {
                assert(bytes@ =~= spec_b32_decode32(token@));
            }
            let hex = to_hex(&bytes);
            Some(hex)
        };
        return decoded;
    }
    if tn == 40 {
        let mut i: usize = 0;
        while i < 40
            invariant
                token@ == spec_btih_token(url@),
                tn == token@.len() == 40,
                i <= 40,
                forall|j: int| 0 <= j < i ==> spec_is_hex_char(#[trigger] token@[j]),
            decreases 40 - i,
        {
            let c = token[i];
            let cu: u32 = c as u32;
            if !((cu >= 48 && cu <= 57) || (cu >= 65 && cu <= 70) || (cu >= 97 && cu <= 102)) {
                proof {
                    assert(!spec_is_hex_char(token@[i as int]));
                }
                return None;
            }
            i = i + 1;
        }
        proof {
            assert(spec_all_hex(token@));
        }
        let ts = string_of_chars(&token);
        return Some(ascii_lower(ts.as_str()));
    }
    None
}

} // verus!
