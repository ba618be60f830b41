//! Cutting a blob into chunks, and the windows of chunks that one ACK covers.
use std::collections::HashSet;
use vstd::prelude::*;

verus! {

/// How many chunks one window, and so one ACK bitmap, covers.
pub const WINDOW: u32 = 32;

/// How many chunks of `size` bytes it takes to hold `len` bytes.
pub open spec fn chunk_total(len: nat, size: nat) -> nat {
    if len % size == 0 {
        len / size
    } else {
        len / size + 1
    }
}

/// Where chunk `seq` ends: chunks are full, but for the last one.
pub open spec fn chunk_end(len: nat, size: nat, seq: nat) -> nat {
    if (seq + 1) * size <= len {
        (seq + 1) * size
    } else {
        len
    }
}

/// Chunk `seq` of `blob`.
pub open spec fn chunk_at(blob: Seq<u8>, size: nat, seq: nat) -> Seq<u8> {
    blob.subrange((seq * size) as int, chunk_end(blob.len(), size, seq) as int)
}

/// A chunk number below the total starts inside the blob, and its chunk is
/// neither empty nor longer than `size`.
pub proof fn chunk_bounds(len: nat, size: nat, seq: nat)
    requires
        size > 0,
        seq < chunk_total(len, size),
    ensures
        seq * size < len,
        seq * size < chunk_end(len, size, seq) <= len,
        chunk_end(len, size, seq) - seq * size <= size,
        chunk_end(len, size, seq) == (if seq * size + size <= len {
            seq * size + size
        } else {
            len
        }),
{
    vstd::arithmetic::div_mod::lemma_fundamental_div_mod(len as int, size as int);
    let q = len / size;
    assert(seq <= q);
    assert((seq + 1) * size == seq * size + size) by (nonlinear_arith);
    if len % size == 0 {
        assert(seq + 1 <= q);
        assert((seq + 1) * size <= q * size) by (nonlinear_arith)
            requires
                seq + 1 <= q,
        ;
        assert(q * size == size * q) by (nonlinear_arith);
    } else {
        assert(seq * size <= q * size) by (nonlinear_arith)
            requires
                seq <= q,
        ;
        assert(q * size == size * q) by (nonlinear_arith);
    }
}

/// The chunks of a blob hold all of it: byte `k` is byte `k % size` of chunk
/// `k / size`.
pub proof fn law_chunks_hold_the_blob(blob: Seq<u8>, size: nat, k: nat)
    requires
        size > 0,
        k < blob.len(),
    ensures
        k / size < chunk_total(blob.len(), size),
        (k % size) < chunk_at(blob, size, k / size).len(),
        chunk_at(blob, size, k / size)[(k % size) as int] == blob[k as int],
{
    let len = blob.len();
    let seq = k / size;
    vstd::arithmetic::div_mod::lemma_fundamental_div_mod(k as int, size as int);
    vstd::arithmetic::div_mod::lemma_fundamental_div_mod(len as int, size as int);
    assert(size * seq == seq * size) by (nonlinear_arith);
    let q = len / size;
    assert(seq <= q) by {
        vstd::arithmetic::div_mod::lemma_div_is_ordered(k as int, len as int, size as int);
    }
    if len % size == 0 && seq == q {
        assert(false);
    }
    chunk_bounds(len, size, seq);
}

/// How many chunks a blob of `blob_len` bytes makes, unless the chunk size is
/// zero or the chunks are too many to number.
pub fn expected_chunk_count(blob_len: usize, chunk_size: usize) -> (count: Option<u32>)
    ensures
        match count {
            Some(n) => chunk_size > 0 && n == chunk_total(blob_len as nat, chunk_size as nat),
            None => chunk_size == 0 || chunk_total(blob_len as nat, chunk_size as nat) > u32::MAX,
        },
{
    if chunk_size == 0 {
        return None;
    }
    let full: usize = blob_len / chunk_size;
    assert(full <= blob_len) by (nonlinear_arith)
        requires
            full == blob_len / chunk_size,
            chunk_size > 0,
    ;
    if blob_len % chunk_size == 0 {
        if full <= 0xffff_ffff {
            Some(full as u32)
        } else {
            None
        }
    } else if full < 0xffff_ffff {
        Some((full + 1) as u32)
    } else {
        None
    }
}

/// One past the last chunk of the window that starts at `base`.
pub open spec fn window_end_of(base: u32, chunk_count: u32) -> u32 {
    if base + WINDOW < chunk_count {
        (base + WINDOW) as u32
    } else {
        chunk_count
    }
}

pub fn window_end(base: u32, chunk_count: u32) -> (end: u32)
    ensures
        end == window_end_of(base, chunk_count),
{
    if base < chunk_count && chunk_count - base > WINDOW {
        base + WINDOW
    } else {
        chunk_count
    }
}

/// Whether bit `i` of `bitmap` is set.
pub open spec fn bit(bitmap: u32, i: u32) -> bool {
    bitmap & (1u32 << i) != 0
}

/// The chunks from `base` up to `end` whose bit is clear, in ascending order.
pub open spec fn unset_seqs(base: u32, end: u32, bitmap: u32) -> Seq<u32>
    decreases end,
{
    if end <= base {
        Seq::empty()
    } else {
        let last = (end - 1) as u32;
        let rest = unset_seqs(base, last, bitmap);
        if bit(bitmap, (last - base) as u32) {
            rest
        } else {
            rest.push(last)
        }
    }
}

/// The chunks of a window that `bitmap` does not acknowledge.
pub fn missing_seqs(base: u32, end: u32, bitmap: u32) -> (missing: Vec<u32>)
    requires
        end <= base + WINDOW,
    ensures
        missing@ == unset_seqs(base, end, bitmap),
{
    let mut missing: Vec<u32> = Vec::new();
    let mut seq: u32 = base;
    while seq < end
        invariant
            end <= base + WINDOW,
            base <= seq,
            seq <= end || seq == base,
            missing@ == unset_seqs(base, seq, bitmap),
        decreases end - seq,
    {
        if bitmap & (1u32 << (seq - base)) == 0 {
            missing.push(seq);
        }
        seq = seq + 1;
    }
    assert(end <= base ==> unset_seqs(base, base, bitmap) == unset_seqs(base, end, bitmap));
    missing
}

/// Membership in [`unset_seqs`], and its order.
pub proof fn unset_seqs_members(base: u32, end: u32, bitmap: u32)
    ensures
        forall|s: u32| #[trigger]
            unset_seqs(base, end, bitmap).contains(s) <==> base <= s < end && !bit(
                bitmap,
                (s - base) as u32,
            ),
        forall|i: int, j: int|
            0 <= i < j < unset_seqs(base, end, bitmap).len() ==> unset_seqs(base, end, bitmap)[i]
                < unset_seqs(base, end, bitmap)[j],
        unset_seqs(base, end, bitmap).len() <= (if end > base {
            end - base
        } else {
            0
        }),
    decreases end,
{
    let all = unset_seqs(base, end, bitmap);
    if end > base {
        let last = (end - 1) as u32;
        let rest = unset_seqs(base, last, bitmap);
        unset_seqs_members(base, last, bitmap);
        assert forall|s: u32| #[trigger] all.contains(s) <==> base <= s < end && !bit(
            bitmap,
            (s - base) as u32,
        ) by {
            assert(rest.contains(s) <==> base <= s < last && !bit(bitmap, (s - base) as u32));
            if !bit(bitmap, (last - base) as u32) {
                assert(all == rest.push(last));
                if rest.contains(s) {
                    let k = choose|k: int| 0 <= k < rest.len() && rest[k] == s;
                    assert(all[k] == s);
                }
                assert(all[rest.len() as int] == last);
                if all.contains(s) && s != last {
                    let k = choose|k: int| 0 <= k < all.len() && all[k] == s;
                    assert(rest[k] == s);
                }
            }
        }
        if !bit(bitmap, (last - base) as u32) {
            assert forall|i: int, j: int| 0 <= i < j < all.len() implies all[i] < all[j] by {
                if j == rest.len() {
                    assert(rest.contains(rest[i]));
                }
            }
        }
    }
}

/// The ACK bitmap of the window `base..end` for a receiver that holds `got`.
pub open spec fn bitmap_of(got: Set<u32>, base: u32, end: u32) -> u32
    decreases end,
{
    if end <= base {
        0
    } else {
        let last = (end - 1) as u32;
        let rest = bitmap_of(got, base, last);
        if got.contains(last) {
            rest | (1u32 << ((last - base) as u32))
        } else {
            rest
        }
    }
}

/// The ACK bitmap of a window: bit `i` says whether chunk `base + i` is here.
pub fn window_bitmap(got: &HashSet<u32>, base: u32, end: u32) -> (bitmap: u32)
    requires
        end <= base + WINDOW,
    ensures
        bitmap == bitmap_of(got@, base, end),
{
    broadcast use vstd::std_specs::hash::group_hash_axioms;

    let mut bits: u32 = 0;
    let mut seq: u32 = base;
    while seq < end
        invariant
            end <= base + WINDOW,
            base <= seq,
            seq <= end || seq == base,
            bits == bitmap_of(got@, base, seq),
        decreases end - seq,
    {
        if got.contains(&seq) {
            bits = bits | (1u32 << (seq - base));
        }
        seq = seq + 1;
    }
    assert(end <= base ==> bitmap_of(got@, base, base) == bitmap_of(got@, base, end));
    bits
}

/// A bit of an ACK bitmap is set exactly for the chunks that arrived.
pub proof fn bitmap_bits(got: Set<u32>, base: u32, end: u32, i: u32)
    requires
        end <= base + WINDOW,
        i < WINDOW,
    ensures
        bit(bitmap_of(got, base, end), i) <==> base + i < end && got.contains((base + i) as u32),
    decreases end,
{
    if end <= base {
        assert(0u32 & (1u32 << i) == 0) by (bit_vector);
    } else {
        let last = (end - 1) as u32;
        let k = (last - base) as u32;
        let rest = bitmap_of(got, base, last);
        bitmap_bits(got, base, last, i);
        assert((rest | (1u32 << k)) & (1u32 << i) != 0 <==> (rest & (1u32 << i) != 0 || i == k))
            by (bit_vector)
            requires
                i < 32,
                k < 32,
        ;
    }
}

/// The sender reads from an ACK exactly what the receiver wrote into it: the
/// chunks it takes to be missing are those that did not arrive.
pub proof fn law_ack_tells_what_is_missing(got: Set<u32>, base: u32, end: u32, seq: u32)
    requires
        end <= base + WINDOW,
    ensures
        unset_seqs(base, end, bitmap_of(got, base, end)).contains(seq) <==> base <= seq < end
            && !got.contains(seq),
{
    unset_seqs_members(base, end, bitmap_of(got, base, end));
    if base <= seq < end {
        bitmap_bits(got, base, end, (seq - base) as u32);
    }
}

/// The first chunk from `from` up to `end` whose bit is clear.
pub open spec fn next_unset(base: u32, end: u32, bitmap: u32, from: u32) -> Option<u32>
    decreases end - from,
{
    if from >= end {
        None
    } else if !bit(bitmap, (from - base) as u32) {
        Some(from)
    } else {
        next_unset(base, end, bitmap, (from + 1) as u32)
    }
}

pub fn next_missing(base: u32, end: u32, bitmap: u32, from: u32) -> (seq: Option<u32>)
    requires
        end <= base + WINDOW,
        base <= from,
    ensures
        seq == next_unset(base, end, bitmap, from),
        seq matches Some(s) ==> from <= s < end,
    decreases end - from,
{
    if from >= end {
        None
    } else if bitmap & (1u32 << (from - base)) == 0 {
        Some(from)
    } else {
        next_missing(base, end, bitmap, from + 1)
    }
}

/// [`next_unset`] finds a chunk exactly if one is missing from there on.
pub proof fn next_unset_is_first(base: u32, end: u32, bitmap: u32, from: u32)
    requires
        base <= from,
    ensures
        match next_unset(base, end, bitmap, from) {
            Some(seq) => from <= seq < end && unset_seqs(base, end, bitmap).contains(seq) && forall|
                s: u32,
            |
                from <= s < seq ==> bit(bitmap, #[trigger] ((s - base) as u32)),
            None => forall|s: u32| from <= s < end ==> bit(bitmap, #[trigger] ((s - base) as u32)),
        },
        from == base && next_unset(base, end, bitmap, from) is None ==> unset_seqs(
            base,
            end,
            bitmap,
        ).len() == 0,
    decreases end - from,
{
    unset_seqs_members(base, end, bitmap);
    if from < end && bit(bitmap, (from - base) as u32) {
        next_unset_is_first(base, end, bitmap, (from + 1) as u32);
    }
    if from == base && next_unset(base, end, bitmap, from) is None {
        let all = unset_seqs(base, end, bitmap);
        if all.len() > 0 {
            assert(all.contains(all[0]));
            assert(bit(bitmap, (all[0] - base) as u32));
        }
    }
}

} // verus!
