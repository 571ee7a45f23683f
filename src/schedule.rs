//! Partition of the row among the connected peers for one round.

use vstd::prelude::*;

verus! {

/// Largest number of bytes sent to a peer in one write/read exchange.
pub const SUB_ROUND_BYTES: usize = 16384;

/// Number of bytes of the row that take part in the round numbered `step`.
pub open spec fn byte_count_spec(step: u64) -> int {
    step as int / 4 + 1
}

/// Width of each peer's chunk; an even peer count gets one extra byte each.
pub open spec fn chunk_size_spec(n: int, b: int) -> int
    recommends
        n > 0,
{
    if n % 2 == 0 {
        b / n + 1
    } else {
        b / n
    }
}

/// First byte of chunk `i`.
pub open spec fn chunk_start_spec(n: int, b: int, i: int) -> int {
    i * chunk_size_spec(n, b)
}

/// One past the last byte of chunk `i`.
pub open spec fn chunk_end_spec(n: int, b: int, i: int) -> int {
    (i + 1) * chunk_size_spec(n, b)
}

/// The byte range handed to the connection at position `index` for one round.
#[derive(Clone, Copy, Debug, PartialEq, Eq)]
pub struct ChunkAssignment {
    pub index: usize,
    pub start: u64,
    pub end: u64,
}

/// Bytes of the row exchanged in the round numbered `step`.
pub fn byte_count(step: u64) -> (r: u64)
    ensures
        r == byte_count_spec(step),
{
    step / 4 + 1
}

/// Chunk width for `connection_count` peers sharing `byte_count` bytes;
/// `None` when there is no peer (nothing is divided).
pub fn chunk_size(connection_count: usize, byte_count: u64) -> (r: Option<u64>)
    ensures
        connection_count == 0 <==> r is None,
        connection_count > 0 ==> r == Some(chunk_size_spec(connection_count as int, byte_count as int) as u64),
{
    if connection_count == 0 {
        return None;
    }
    let n = connection_count as u64;
    let q = byte_count / n;
    assert(q <= byte_count);
    if connection_count % 2 == 0 {
        assert(q <= byte_count / 2) by (nonlinear_arith)
            requires
                n >= 2,
                q == byte_count / n,
        ;
        Some(q + 1)
    } else {
        Some(q)
    }
}

proof fn lemma_chunk_bound(n: int, b: int, i: int)
    requires
        n > 0,
        b >= 0,
        0 <= i < n,
    ensures
        0 <= chunk_start_spec(n, b, i) <= chunk_end_spec(n, b, i),
        chunk_end_spec(n, b, i) <= n * chunk_size_spec(n, b),
        n * chunk_size_spec(n, b) <= if n <= b { 2 * b } else { n },
{
    let c = chunk_size_spec(n, b);
    assert(n * (b / n) <= b) by (nonlinear_arith)
        requires
            n > 0,
            b >= 0,
    ;
    assert(b < n ==> b / n == 0) by (nonlinear_arith)
        requires
            n > 0,
            b >= 0,
    ;
    assert(c >= 0) by (nonlinear_arith)
        requires
            n > 0,
            b >= 0,
            c == b / n || c == b / n + 1,
    ;
    assert(0 <= i * c <= (i + 1) * c <= n * c) by (nonlinear_arith)
        requires
            0 <= i < n,
            c >= 0,
    ;
    assert(n * c == n * (b / n) + if n % 2 == 0 { n } else { 0 }) by (nonlinear_arith)
        requires
            c == if n % 2 == 0 { b / n + 1 } else { b / n },
    ;
}

/// The assignments of one round: connection `i` gets
/// `[i * chunk_size, (i + 1) * chunk_size)`, in connection order.
/// With no connection there is no assignment.
pub fn schedule(connection_count: usize, step: u64) -> (r: Vec<ChunkAssignment>)
    ensures
        r.len() == connection_count,
        forall|i: int|
            0 <= i < r.len() ==> {
                &&& #[trigger] r[i].index == i
                &&& r[i].start == chunk_start_spec(connection_count as int, byte_count_spec(step), i)
                &&& r[i].end == chunk_end_spec(connection_count as int, byte_count_spec(step), i)
            },
{
    let b = byte_count(step);
    let mut out: Vec<ChunkAssignment> = Vec::new();
    let size = match chunk_size(connection_count, b) {
        None => return out,
        Some(s) => s,
    };
    let ghost n = connection_count as int;
    let mut i: usize = 0;
    while i < connection_count
        invariant
            0 <= i <= connection_count,
            n == connection_count,
            b == byte_count_spec(step),
            size == chunk_size_spec(n, b as int),
            out.len() == i,
            forall|k: int|
                0 <= k < i ==> {
                    &&& #[trigger] out[k].index == k
                    &&& out[k].start == chunk_start_spec(n, b as int, k)
                    &&& out[k].end == chunk_end_spec(n, b as int, k)
                },
        decreases connection_count - i,
    {
        proof {
            lemma_chunk_bound(n, b as int, i as int);
            assert(b <= 0x4000_0000_0000_0001);
            assert(n <= u64::MAX);
            assert((i + 1) * size == i * size + size) by (nonlinear_arith);
        }
        let start = (i as u64) * size;
        let end = start + size;
        assert(start == chunk_start_spec(n, b as int, i as int));
        assert(end == chunk_end_spec(n, b as int, i as int));
        out.push(ChunkAssignment { index: i, start, end });
        i = i + 1;
    }
    out
}

/// Number of write/read exchanges needed for `len` bytes.
pub open spec fn sub_round_count(len: int) -> int {
    (len + SUB_ROUND_BYTES - 1) / SUB_ROUND_BYTES as int
}

/// Range of the `k`-th exchange of the chunk `[start, end)`.
pub open spec fn sub_round_spec(start: int, end: int, k: int) -> (int, int) {
    let from = start + k * SUB_ROUND_BYTES;
    let to = start + (k + 1) * SUB_ROUND_BYTES;
    (from, if to < end { to } else { end })
}

/// Splits a chunk into consecutive exchanges of at most `SUB_ROUND_BYTES`
/// bytes that cover it exactly; an empty chunk needs no exchange.
pub fn sub_rounds(start: u64, end: u64) -> (r: Vec<(u64, u64)>)
    requires
        start <= end,
    ensures
        r.len() == sub_round_count(end - start),
        forall|k: int|
            0 <= k < r.len() ==> (#[trigger] r[k].0 as int, r[k].1 as int) == sub_round_spec(
                start as int,
                end as int,
                k,
            ),
{
    let s: u64 = SUB_ROUND_BYTES as u64;
    let mut out: Vec<(u64, u64)> = Vec::new();
    let mut from = start;
    while from < end
        invariant
            start <= from <= end,
            s == SUB_ROUND_BYTES,
            from == if start + out.len() * s < end { start + out.len() * s } else { end as int },
            out.len() > 0 ==> start + (out.len() - 1) * s < end,
            forall|k: int|
                0 <= k < out.len() ==> (#[trigger] out[k].0 as int, out[k].1 as int)
                    == sub_round_spec(start as int, end as int, k),
        decreases end - from,
    {
        let ghost len = out.len() as int;
        let to = if end - from > s {
            from + s
        } else {
            end
        };
        assert(start + len * s < end);
        assert(start + (len + 1) * s == start + len * s + s) by (nonlinear_arith);
        out.push((from, to));
        from = to;
    }
    proof {
        let len = out.len() as int;
        let l: int = end - start;
        let s: int = s as int;
        assert(l <= len * s);
        assert(len > 0 ==> (len - 1) * s < l);
        assert((l + s - 1) / s == len) by (nonlinear_arith)
            requires
                s == 16384,
                l >= 0,
                l <= len * s,
                len > 0 ==> (len - 1) * s < l,
                len >= 0,
        ;
    }
    out
}

/// The assignments of a round are pairwise disjoint and follow connection
/// order: a chunk ends where or before any later chunk starts.
pub proof fn lemma_schedule_disjoint_ordered(n: int, step: u64, i: int, j: int)
    requires
        n >= 1,
        0 <= i < j < n,
    ensures
        chunk_start_spec(n, byte_count_spec(step), i) <= chunk_end_spec(n, byte_count_spec(step), i),
        chunk_end_spec(n, byte_count_spec(step), i) <= chunk_start_spec(n, byte_count_spec(step), j),
{
    let b = byte_count_spec(step);
    lemma_chunk_bound(n, b, i);
    lemma_chunk_bound(n, b, j);
    let c = chunk_size_spec(n, b);
    assert((i + 1) * c <= j * c) by (nonlinear_arith)
        requires
            i < j,
            c >= 0,
    ;
}

/// Every chunk is at least one byte wide when the peer count is even, or when
/// it is odd and no larger than the round's byte count.
pub proof fn lemma_chunk_size_positive(n: int, b: int)
    requires
        n >= 1,
        b >= 1,
        n % 2 == 0 || n <= b,
    ensures
        chunk_size_spec(n, b) >= 1,
{
    assert(n <= b ==> b / n >= 1) by (nonlinear_arith)
        requires
            n >= 1,
            b >= 1,
    ;
    assert(b / n >= 0) by (nonlinear_arith)
        requires
            n >= 1,
            b >= 1,
    ;
}

} // verus!
