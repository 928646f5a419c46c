//! Chunk planning for the multi-connection HTTP engine: splitting the byte
//! range `[0, size)` into a contiguous, non-overlapping partition of capped
//! work units, and the accounting used on resume and completion.

use vstd::prelude::*;
use vstd::arithmetic::mul::lemma_mul_inequality;
use vstd::arithmetic::div_mod::{lemma_fundamental_div_mod, lemma_mod_bound};
use crate::model::{ChunkRecord, spec_chunk_wf};

verus! {

/// Hard cap on one planned range: bounds per-request duration under
/// throttling and limits replayed work on retry.
pub const MAX_CHUNK_BYTES: u64 = 10 * 1024 * 1024;

/// The chunks cover `[0, size)` contiguously and without overlap: the first
/// starts at 0, each next one starts right after its predecessor, and the
/// last ends at `size - 1`. An empty list covers only `size == 0`.
pub open spec fn spec_chunks_partition(chunks: Seq<ChunkRecord>, size: int) -> bool {
    &&& (chunks.len() == 0 <==> size == 0)
    &&& chunks.len() > 0 ==> chunks[0].start == 0
    &&& chunks.len() > 0 ==> chunks.last().end + 1 == size
    &&& forall|i: int|
        0 <= i < chunks.len() ==> 0 <= #[trigger] chunks[i].start <= chunks[i].end
    &&& forall|i: int|
        0 <= i < chunks.len() - 1 ==> #[trigger] chunks[i + 1].start == chunks[i].end + 1
}

/// Every chunk is freshly planned for download `id`: no progress yet, and at
/// most `MAX_CHUNK_BYTES` long.
pub open spec fn spec_chunks_fresh(chunks: Seq<ChunkRecord>, id: Seq<char>) -> bool {
    forall|i: int|
        0 <= i < chunks.len() ==> {
            &&& (#[trigger] chunks[i]).downloaded == 0
            &&& chunks[i].download_id@ == id
            &&& chunks[i].end - chunks[i].start + 1 <= MAX_CHUNK_BYTES
        }
}

/// In a partition, earlier chunks lie strictly below later ones: the ranges
/// cannot overlap.
pub proof fn lemma_partition_disjoint(chunks: Seq<ChunkRecord>, size: int, i: int, j: int)
    requires
        spec_chunks_partition(chunks, size),
        0 <= i < j < chunks.len(),
    ensures
        chunks[i].end < chunks[j].start,
    decreases j - i,
{
    assert(chunks[i + 1].start == chunks[i].end + 1);
    if j == i + 1 {
    } else {
        assert(chunks[i + 1].start <= chunks[i + 1].end);
        lemma_partition_disjoint(chunks, size, i + 1, j);
    }
}

/// Every byte offset of `[0, size)` lies in exactly one chunk of a
/// partition, so pausing and resuming replays each missing byte range
/// exactly once: finished chunks keep their bytes, and the remaining
/// chunks cover precisely what is missing.
pub proof fn lemma_partition_covers(chunks: Seq<ChunkRecord>, size: int, o: int)
    requires
        spec_chunks_partition(chunks, size),
        0 <= o < size,
    ensures
        exists|i: int|
            0 <= i < chunks.len() && (#[trigger] chunks[i]).start <= o <= chunks[i].end,
        forall|i: int, j: int|
            0 <= i < chunks.len() && 0 <= j < chunks.len() && (#[trigger] chunks[i]).start <= o
                <= chunks[i].end && (#[trigger] chunks[j]).start <= o <= chunks[j].end ==> i == j,
{
    lemma_partition_covers_exists(chunks, size, o);
    assert forall|i: int, j: int|
        0 <= i < chunks.len() && 0 <= j < chunks.len() && (#[trigger] chunks[i]).start <= o
            <= chunks[i].end && (#[trigger] chunks[j]).start <= o <= chunks[j].end implies i
        == j by {
        if i < j {
            lemma_partition_disjoint(chunks, size, i, j);
        } else if j < i {
            lemma_partition_disjoint(chunks, size, j, i);
        }
    }
}

proof fn lemma_partition_covers_exists(chunks: Seq<ChunkRecord>, size: int, o: int)
    requires
        spec_chunks_partition(chunks, size),
        0 <= o < size,
    ensures
        exists|i: int|
            0 <= i < chunks.len() && (#[trigger] chunks[i]).start <= o <= chunks[i].end,
    decreases chunks.len(),
{
    let last = chunks.last();
    if last.start <= o {
        assert(chunks[chunks.len() - 1].start <= o <= chunks[chunks.len() - 1].end);
    } else {
        let prefix = chunks.drop_last();
        assert(forall|i: int| 0 <= i < prefix.len() ==> prefix[i] == chunks[i]);
        if prefix.len() > 0 {
            assert(chunks[prefix.len() - 1 + 1].start == chunks[prefix.len() - 1].end + 1);
            assert(0 <= chunks[prefix.len() - 1].start <= chunks[prefix.len() - 1].end);
        }
        assert(spec_chunks_partition(prefix, last.start as int));
        lemma_partition_covers_exists(prefix, last.start as int, o);
        let w = choose|i: int|
            0 <= i < prefix.len() && (#[trigger] prefix[i]).start <= o <= prefix[i].end;
        assert(chunks[w].start <= o <= chunks[w].end);
    }
}

/// Sum of the bytes completed in each chunk.
pub open spec fn spec_sum_downloaded(chunks: Seq<ChunkRecord>) -> int
    decreases chunks.len(),
{
    if chunks.len() == 0 {
        0
    } else {
        spec_sum_downloaded(chunks.drop_last()) + chunks.last().downloaded
    }
}

/// Sum of the lengths of the chunk ranges.
pub open spec fn spec_sum_lens(chunks: Seq<ChunkRecord>) -> int
    decreases chunks.len(),
{
    if chunks.len() == 0 {
        0
    } else {
        spec_sum_lens(chunks.drop_last()) + (chunks.last().end - chunks.last().start + 1)
    }
}

/// The ranges of a partition of `[0, size)` have lengths summing to `size`.
pub proof fn lemma_partition_sum_lens(chunks: Seq<ChunkRecord>, size: int)
    requires
        spec_chunks_partition(chunks, size),
    ensures
        spec_sum_lens(chunks) == size,
    decreases chunks.len(),
{
    if chunks.len() > 0 {
        let prefix = chunks.drop_last();
        let c = chunks.last();
        assert(forall|i: int| 0 <= i < prefix.len() ==> prefix[i] == chunks[i]);
        if prefix.len() > 0 {
            assert(prefix.last() == chunks[chunks.len() - 2]);
            assert(chunks[prefix.len() - 1 + 1].start == chunks[prefix.len() - 1].end + 1);
            assert(0 <= chunks[prefix.len() - 1].start <= chunks[prefix.len() - 1].end);
            assert(c.start > 0);
        } else {
            assert(c == chunks[0]);
        }
        assert(spec_chunks_partition(prefix, c.start as int));
        lemma_partition_sum_lens(prefix, c.start as int);
    }
}

/// Progress within each chunk never exceeds its range, so the total progress
/// never exceeds the total length.
pub proof fn lemma_sum_downloaded_bounds(chunks: Seq<ChunkRecord>)
    requires
        forall|i: int| 0 <= i < chunks.len() ==> spec_chunk_wf(#[trigger] chunks[i]),
    ensures
        0 <= spec_sum_downloaded(chunks) <= spec_sum_lens(chunks),
    decreases chunks.len(),
{
    if chunks.len() > 0 {
        let prefix = chunks.drop_last();
        assert(forall|i: int| 0 <= i < prefix.len() ==> prefix[i] == chunks[i]);
        lemma_sum_downloaded_bounds(prefix);
        assert(spec_chunk_wf(chunks.last()));
    }
}

/// When every chunk of a partition of `[0, size)` has completed its whole
/// range, the completed bytes sum to exactly `size`.
pub proof fn lemma_complete_chunks_cover(chunks: Seq<ChunkRecord>, size: int)
    requires
        spec_chunks_partition(chunks, size),
        forall|i: int|
            0 <= i < chunks.len() ==> (#[trigger] chunks[i]).downloaded == chunks[i].end
                - chunks[i].start + 1,
    ensures
        spec_sum_downloaded(chunks) == size,
    decreases chunks.len(),
{
    lemma_partition_sum_lens(chunks, size);
    lemma_sum_eq_when_complete(chunks);
}

proof fn lemma_sum_eq_when_complete(chunks: Seq<ChunkRecord>)
    requires
        forall|i: int|
            0 <= i < chunks.len() ==> (#[trigger] chunks[i]).downloaded == chunks[i].end
                - chunks[i].start + 1,
    ensures
        spec_sum_downloaded(chunks) == spec_sum_lens(chunks),
    decreases chunks.len(),
{
    if chunks.len() > 0 {
        let prefix = chunks.drop_last();
        assert(forall|i: int| 0 <= i < prefix.len() ==> prefix[i] == chunks[i]);
        lemma_sum_eq_when_complete(prefix);
    }
}

proof fn lemma_partition_push(chunks: Seq<ChunkRecord>, size: int, c: ChunkRecord)
    requires
        spec_chunks_partition(chunks, size),
        0 <= size,
        c.start == size,
        c.start <= c.end,
    ensures
        spec_chunks_partition(chunks.push(c), c.end + 1),
{
    let out = chunks.push(c);
    assert(out.last() == c);
    assert(forall|i: int| 0 <= i < chunks.len() ==> out[i] == chunks[i]);
    assert forall|i: int| 0 <= i < out.len() - 1 implies #[trigger] out[i + 1].start == out[i].end
        + 1 by {
        if i + 1 < chunks.len() {
        } else {
            assert(out[i] == chunks.last());
        }
    }
}

/// How many equal base ranges a plan starts from: eight per connection.
pub open spec fn spec_plan_num(connections: u8) -> int {
    connections * 8
}

/// The length of one base range.
pub open spec fn spec_plan_base(size: u64, connections: u8) -> int {
    size as int / spec_plan_num(connections)
}

/// Whether the equal split needs no cap splitting: every base range, and
/// the slightly longer last one, stays within `MAX_CHUNK_BYTES`.
pub open spec fn spec_plan_uniform(size: u64, connections: u8) -> bool {
    let num = spec_plan_num(connections);
    let base = spec_plan_base(size, connections);
    &&& 1 <= base <= MAX_CHUNK_BYTES
    &&& size - (num - 1) * base <= MAX_CHUNK_BYTES
}

/// Plans the work units for one download of `size` bytes with `connections`
/// parallel workers: eight ranges per connection of equal base length, each
/// then capped at `MAX_CHUNK_BYTES` by splitting. A size below the range
/// count yields a single range; when no range needs splitting, the plan is
/// exactly the `8 x connections` equal ranges.
pub fn plan_chunks(id: &str, size: u64, connections: u8) -> (chunks: Vec<ChunkRecord>)
    requires
        1 <= size <= i64::MAX,
        connections >= 1,
    ensures
        spec_chunks_partition(chunks@, size as int),
        spec_chunks_fresh(chunks@, id@),
        spec_plan_base(size, connections) == 0 ==> chunks@.len() == 1,
        spec_plan_uniform(size, connections) ==> {
            &&& chunks@.len() == spec_plan_num(connections)
            &&& forall|k: int|
                0 <= k < chunks@.len() ==> (#[trigger] chunks@[k]).start == k * spec_plan_base(
                    size,
                    connections,
                )
            &&& forall|k: int|
                0 <= k < chunks@.len() - 1 ==> (#[trigger] chunks@[k]).end == (k + 1)
                    * spec_plan_base(size, connections) - 1
        },
{
    let num: u64 = (connections as u64) * 8;
    let base: u64 = size / num;
    proof {
        assert(num == spec_plan_num(connections));
        assert(base == spec_plan_base(size, connections));
    }
    let mut chunks: Vec<ChunkRecord> = Vec::new();
    if base == 0 {
        // Size below the range count: the size is below the range count,
        // which is below the cap, so the single range stays one chunk.
        proof {
            lemma_fundamental_div_mod(size as int, num as int);
            lemma_mod_bound(size as int, num as int);
            assert(size < num);
        }
        push_capped(&mut chunks, id, 0, size - 1);
        return chunks;
    }
    proof {
        lemma_fundamental_div_mod(size as int, num as int);
        lemma_mod_bound(size as int, num as int);
        assert(num * base <= size);
    }
    let mut i: u64 = 0;
    let mut next: u64 = 0;
    while i < num
        invariant
            1 <= num <= 2040,
            num == spec_plan_num(connections),
            base == spec_plan_base(size, connections),
            1 <= base,
            num * base <= size,
            size <= i64::MAX,
            i <= num,
            i < num ==> next == i * base,
            i == num ==> next == size,
            next <= size,
            spec_chunks_partition(chunks@, next as int),
            spec_chunks_fresh(chunks@, id@),
            spec_plan_uniform(size, connections) ==> {
                &&& chunks@.len() == i
                &&& forall|k: int|
                    0 <= k < i ==> (#[trigger] chunks@[k]).start == k * base
                &&& forall|k: int|
                    0 <= k < i && k < num - 1 ==> (#[trigger] chunks@[k]).end == (k + 1) * base
                        - 1
            },
        decreases num - i,
    {
        let ghost chunks0 = chunks@;
        let target_end: u64;
        if i == num - 1 {
            proof {
                lemma_mul_inequality(i as int, num as int - 1, base as int);
                assert((num - 1) * base + base == num * base) by (nonlinear_arith);
            }
            target_end = size - 1;
        } else {
            proof {
                lemma_mul_inequality(i as int + 1, num as int, base as int);
                assert((i + 1) * base == i * base + base) by (nonlinear_arith);
            }
            target_end = next + base - 1;
        }
        proof {
            if spec_plan_uniform(size, connections) {
                if i == num - 1 {
                    // The final range is the remainder past the equal split.
                    assert(target_end - next + 1 == size - (num - 1) * base);
                } else {
                    assert(target_end - next + 1 == base);
                }
                assert(target_end - next + 1 <= MAX_CHUNK_BYTES);
            }
        }
        push_capped(&mut chunks, id, next, target_end);
        next = target_end + 1;
        i = i + 1;
        proof {
            if i < num {
                lemma_mul_inequality(i as int, num as int, base as int);
            }
            if spec_plan_uniform(size, connections) {
                assert(chunks@.len() == chunks0.len() + 1);
                assert(chunks@.last().start == (i - 1) * base);
                assert forall|k: int| 0 <= k < i implies (#[trigger] chunks@[k]).start == k
                    * base by {
                    if k < i - 1 {
                        assert(chunks@[k] == chunks0[k]);
                    } else {
                        assert(chunks@[k] == chunks@.last());
                    }
                }
                assert forall|k: int| 0 <= k < i && k < num - 1 implies (#[trigger] chunks@[
                k]).end == (k + 1) * base - 1 by {
                    if k < i - 1 {
                        assert(chunks@[k] == chunks0[k]);
                    } else {
                        assert(chunks@[k] == chunks@.last());
                    }
                }
            }
        }
    }
    chunks
}

/// Appends the range `[start, end]` to a plan as one or more chunks, none
/// longer than `MAX_CHUNK_BYTES`; a range within the cap stays one chunk.
fn push_capped(chunks: &mut Vec<ChunkRecord>, id: &str, start: u64, end: u64)
    requires
        start <= end < i64::MAX,
        spec_chunks_partition(old(chunks)@, start as int),
        spec_chunks_fresh(old(chunks)@, id@),
    ensures
        spec_chunks_partition(final(chunks)@, end + 1),
        spec_chunks_fresh(final(chunks)@, id@),
        end - start + 1 <= MAX_CHUNK_BYTES ==> {
            &&& final(chunks)@.len() == old(chunks)@.len() + 1
            &&& forall|j: int| 0 <= j < old(chunks)@.len() ==> final(chunks)@[j] == old(chunks)@[j]
            &&& final(chunks)@.last().start == start
            &&& final(chunks)@.last().end == end
        },
{
    let mut cur: u64 = start;
    while end - cur >= MAX_CHUNK_BYTES
        invariant
            start <= cur <= end < i64::MAX,
            spec_chunks_partition(chunks@, cur as int),
            spec_chunks_fresh(chunks@, id@),
            end - start + 1 <= MAX_CHUNK_BYTES ==> cur == start && chunks@ == old(chunks)@,
        decreases end - cur,
    {
        let c = ChunkRecord {
            download_id: id.to_owned(),
            start: cur as i64,
            end: (cur + MAX_CHUNK_BYTES - 1) as i64,
            downloaded: 0,
        };
        proof {
            lemma_partition_push(chunks@, cur as int, c);
        }
        chunks.push(c);
        cur = cur + MAX_CHUNK_BYTES;
    }
    let c = ChunkRecord { download_id: id.to_owned(), start: cur as i64, end: end as i64, downloaded: 0 };
    proof {
        lemma_partition_push(chunks@, cur as int, c);
    }
    chunks.push(c);
    proof {
        if end - start + 1 <= MAX_CHUNK_BYTES {
            assert(chunks@.last() == c);
            assert(forall|j: int|
                0 <= j < old(chunks)@.len() ==> chunks@[j] == old(chunks)@[j]);
        }
    }
}

/// The chunk rows loaded for one download are usable for resume: well-formed
/// and a partition of `[0, size)`.
pub open spec fn spec_valid_chunk_set(chunks: Seq<ChunkRecord>, size: int) -> bool {
    &&& spec_chunks_partition(chunks, size)
    &&& forall|i: int| 0 <= i < chunks.len() ==> spec_chunk_wf(#[trigger] chunks[i])
}

/// Checks whether chunk rows read back from the store form a well-formed
/// partition of `[0, size)`; resume trusts them only after this test.
pub fn validate_chunks(chunks: &Vec<ChunkRecord>, size: i64) -> (r: bool)
    requires
        size >= 0,
    ensures
        r == spec_valid_chunk_set(chunks@, size as int),
{
    let n = chunks.len();
    if n == 0 {
        return size == 0;
    }
    if size == 0 {
        return false;
    }
    if chunks[0].start != 0 {
        return false;
    }
    if chunks[n - 1].end != size - 1 {
        return false;
    }
    let mut i: usize = 0;
    while i < n
        invariant
            n == chunks@.len(),
            n > 0,
            chunks@[n - 1].end == size - 1,
            i <= n,
            forall|j: int| 0 <= j < i ==> 0 <= #[trigger] chunks@[j].start <= chunks@[j].end,
            forall|j: int| 0 <= j < i ==> spec_chunk_wf(#[trigger] chunks@[j]),
            forall|j: int|
                0 <= j < i && j < n - 1 ==> #[trigger] chunks@[j + 1].start == chunks@[j].end + 1,
        decreases n - i,
    {
        let c = &chunks[i];
        if c.start < 0 || c.end < c.start {
            assert(!spec_chunk_wf(chunks@[i as int]));
            return false;
        }
        if c.end == i64::MAX {
            proof {
                if i < n - 1 {
                    if spec_chunks_partition(chunks@, size as int) {
                        assert(chunks@[i as int + 1].start == chunks@[i as int].end + 1);
                    }
                }
            }
            return false;
        }
        if c.downloaded < 0 || c.downloaded > c.end - c.start + 1 {
            assert(!spec_chunk_wf(chunks@[i as int]));
            return false;
        }
        if i < n - 1 {
            if chunks[i + 1].start != c.end + 1 {
                return false;
            }
        }
        i = i + 1;
    }
    true
}

/// Bytes already completed over all chunks; on a valid chunk set this is at
/// most `size`.
pub fn sum_downloaded(chunks: &Vec<ChunkRecord>, size: i64) -> (total: i64)
    requires
        size >= 0,
        spec_valid_chunk_set(chunks@, size as int),
    ensures
        total == spec_sum_downloaded(chunks@),
        0 <= total <= size,
{
    proof {
        lemma_partition_sum_lens(chunks@, size as int);
        lemma_sum_downloaded_bounds(chunks@);
    }
    let n = chunks.len();
    let mut acc: i64 = 0;
    let mut i: usize = 0;
    while i < n
        invariant
            n == chunks@.len(),
            size >= 0,
            spec_valid_chunk_set(chunks@, size as int),
            i <= n,
            acc == spec_sum_downloaded(chunks@.take(i as int)),
            0 <= acc <= size,
        decreases n - i,
    {
        proof {
            assert(chunks@.take(i + 1).drop_last() =~= chunks@.take(i as int));
            assert(chunks@.take(i + 1).last() == chunks@[i as int]);
            lemma_take_valid_prefix(chunks@, size as int, i + 1);
            lemma_partition_sum_lens(chunks@, size as int);
            lemma_sum_downloaded_bounds(chunks@);
            lemma_sum_prefix_le(chunks@, i + 1);
        }
        acc = acc + chunks[i].downloaded;
        i = i + 1;
    }
    proof {
        assert(chunks@.take(n as int) =~= chunks@);
    }
    acc
}

proof fn lemma_take_valid_prefix(chunks: Seq<ChunkRecord>, size: int, k: int)
    requires
        forall|i: int| 0 <= i < chunks.len() ==> spec_chunk_wf(#[trigger] chunks[i]),
        0 <= k <= chunks.len(),
    ensures
        forall|i: int| 0 <= i < k ==> spec_chunk_wf(#[trigger] chunks.take(k)[i]),
        0 <= spec_sum_downloaded(chunks.take(k)),
{
    assert(forall|i: int| 0 <= i < k ==> chunks.take(k)[i] == chunks[i]);
    lemma_sum_downloaded_bounds(chunks.take(k));
}

proof fn lemma_sum_prefix_le(chunks: Seq<ChunkRecord>, k: int)
    requires
        forall|i: int| 0 <= i < chunks.len() ==> spec_chunk_wf(#[trigger] chunks[i]),
        0 <= k <= chunks.len(),
    ensures
        spec_sum_downloaded(chunks.take(k)) <= spec_sum_downloaded(chunks),
    decreases chunks.len() - k,
{
    if k == chunks.len() {
        assert(chunks.take(k) =~= chunks);
    } else {
        lemma_sum_prefix_le(chunks, k + 1);
        assert(chunks.take(k + 1).drop_last() =~= chunks.take(k));
        assert(chunks.take(k + 1).last() == chunks[k]);
        assert(spec_chunk_wf(chunks[k]));
    }
}

/// The chunks still to be worked on: those whose completed byte count has
/// not yet reached the length of their range.
pub fn remaining_chunks(chunks: &Vec<ChunkRecord>) -> (r: Vec<ChunkRecord>)
    requires
        forall|i: int|
            0 <= i < chunks@.len() ==> spec_chunk_wf(#[trigger] chunks@[i]) && chunks@[i].end
                < i64::MAX,
    ensures
        r@ == chunks@.filter(|c: ChunkRecord| c.downloaded < c.end - c.start + 1),
{
    let n = chunks.len();
    let mut out: Vec<ChunkRecord> = Vec::new();
    let mut i: usize = 0;
    proof {
        reveal_with_fuel(Seq::filter, 2);
        assert(chunks@.take(0).filter(|c: ChunkRecord| c.downloaded < c.end - c.start + 1)
            =~= Seq::<ChunkRecord>::empty());
    }
    while i < n
        invariant
            n == chunks@.len(),
            i <= n,
            forall|j: int|
                0 <= j < n ==> spec_chunk_wf(#[trigger] chunks@[j]) && chunks@[j].end < i64::MAX,
            out@ == chunks@.take(i as int).filter(
                |c: ChunkRecord| c.downloaded < c.end - c.start + 1,
            ),
        decreases n - i,
    {
        proof {
            reveal_with_fuel(Seq::filter, 2);
            assert(chunks@.take(i + 1).drop_last() =~= chunks@.take(i as int));
            assert(chunks@.take(i + 1).last() == chunks@[i as int]);
        }
        let c = &chunks[i];
        if c.downloaded < c.end - c.start + 1 {
            out.push(c.duplicate());
        }
        i = i + 1;
    }
    proof {
        assert(chunks@.take(n as int) =~= chunks@);
    }
    out
}

} // verus!
