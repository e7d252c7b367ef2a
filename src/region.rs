use vstd::prelude::*;

verus! {

/// A target interval `[start, end)` on a chromosome, 0-based and half-open.
#[derive(Debug)]
pub struct TargetInterval {
    pub chrom: String,
    pub start: u32,
    pub end: u32,
}

/// A bounded piece of a target interval: the unit of parallel work.
#[derive(Debug)]
pub struct RegionChunk {
    pub chrom: String,
    pub start: u32,
    pub end: u32,
}

/// How many chunks an interval is cut into: one per started `size` bases,
/// and a single (possibly empty) chunk for an empty interval.
pub open spec fn chunk_count(start: nat, end: nat, size: nat) -> nat
    recommends
        size > 0,
{
    if end <= start {
        1
    } else {
        ((end - start) + size - 1) as nat / size
    }
}

/// The first position of chunk `k`.
pub open spec fn chunk_start(start: nat, size: nat, k: nat) -> nat {
    start + k * size
}

/// The end (exclusive) of chunk `k`: a full chunk, or what is left of the interval.
pub open spec fn chunk_end(start: nat, end: nat, size: nat, k: nat) -> nat {
    if start + (k + 1) * size <= end {
        start + (k + 1) * size
    } else {
        end
    }
}

/// Whether position `p` lies in one of the chunks of `[start, end)`.
pub open spec fn in_some_chunk(start: nat, end: nat, size: nat, p: nat) -> bool {
    exists|k: nat|
        k < chunk_count(start, end, size) && #[trigger] chunk_start(start, size, k) <= p
            < chunk_end(start, end, size, k)
}

proof fn lemma_chunk_index_bounds(start: nat, end: nat, size: nat, k: nat)
    requires
        size > 0,
        start <= end,
        k < chunk_count(start, end, size),
    ensures
        chunk_start(start, size, k) <= end,
        end > start ==> chunk_start(start, size, k) < end,
{
    if end > start {
        let len = (end - start) as nat;
        let c = ((len + size - 1) as nat) / size;
        assert(c * size <= len + size - 1) by (nonlinear_arith)
            requires
                c == ((len + size - 1) as nat) / size,
                size > 0,
        ;
        assert(k * size + size <= c * size) by (nonlinear_arith)
            requires
                k + 1 <= c,
        ;
    } else {
        assert(k == 0);
    }
}

/// The chunks of one interval cover it exactly: each chunk lies inside the
/// interval and is at most `size` long, the chunks follow one another without
/// overlap, and every position of the interval falls in one of them.
pub proof fn lemma_chunks_partition(start: nat, end: nat, size: nat)
    requires
        size > 0,
        start <= end,
    ensures
        forall|k: nat|
            k < chunk_count(start, end, size) ==> start <= #[trigger] chunk_start(start, size, k)
                <= chunk_end(start, end, size, k) <= end && chunk_end(start, end, size, k)
                - chunk_start(start, size, k) <= size,
        forall|k1: nat, k2: nat|
            k1 < k2 < chunk_count(start, end, size) ==> #[trigger] chunk_end(start, end, size, k1)
                <= #[trigger] chunk_start(start, size, k2),
        forall|p: nat| start <= p < end ==> #[trigger] in_some_chunk(start, end, size, p),
{
    assert forall|k: nat| k < chunk_count(start, end, size) implies start <= #[trigger] chunk_start(
        start,
        size,
        k,
    ) <= chunk_end(start, end, size, k) <= end && chunk_end(start, end, size, k) - chunk_start(
        start,
        size,
        k,
    ) <= size by {
        lemma_chunk_index_bounds(start, end, size, k);
        assert(k * size + size == (k + 1) * size) by (nonlinear_arith);
        assert(0 <= k * size) by (nonlinear_arith);
    }
    assert forall|k1: nat, k2: nat| k1 < k2 < chunk_count(start, end, size) implies #[trigger] chunk_end(
        start,
        end,
        size,
        k1,
    ) <= #[trigger] chunk_start(start, size, k2) by {
        assert((k1 + 1) * size <= k2 * size) by (nonlinear_arith)
            requires
                k1 + 1 <= k2,
        ;
    }
    assert forall|p: nat| start <= p < end implies #[trigger] in_some_chunk(start, end, size, p) by {
        let off = (p - start) as nat;
        let len = (end - start) as nat;
        let k = off / size;
        assert(k * size <= off < (k + 1) * size) by (nonlinear_arith)
            requires
                k == off / size,
                size > 0,
        ;
        assert(k < ((len + size - 1) as nat) / size) by (nonlinear_arith)
            requires
                k * size <= off,
                off < len,
                size > 0,
        ;
        assert(chunk_start(start, size, k) <= p < chunk_end(start, end, size, k));
    }
}

/// Cuts `[start, end)` into consecutive chunks of `size` bases; the last chunk
/// holds what remains.
pub fn split_interval(start: u32, end: u32, size: u32) -> (r: Vec<(u32, u32)>)
    requires
        start <= end,
        size > 0,
    ensures
        r@.len() == chunk_count(start as nat, end as nat, size as nat),
        forall|k: int|
            0 <= k < r@.len() ==> (#[trigger] r@[k]).0 == chunk_start(
                start as nat,
                size as nat,
                k as nat,
            ) && r@[k].1 == chunk_end(start as nat, end as nat, size as nat, k as nat),
{
    let mut out: Vec<(u32, u32)> = Vec::new();
    let mut s: u32 = start;
    proof {
        assert(0 * (size as nat) == 0) by (nonlinear_arith);
    }
    loop
        invariant_except_break
            start <= s <= end,
            s as nat == chunk_start(start as nat, size as nat, out@.len() as nat),
            out@.len() == 0 || s < end,
        invariant
            size > 0,
            forall|k: int|
                0 <= k < out@.len() ==> (#[trigger] out@[k]).0 == chunk_start(
                    start as nat,
                    size as nat,
                    k as nat,
                ) && out@[k].1 == chunk_end(start as nat, end as nat, size as nat, k as nat),
        ensures
            out@.len() == chunk_count(start as nat, end as nat, size as nat),
            forall|k: int|
                0 <= k < out@.len() ==> (#[trigger] out@[k]).0 == chunk_start(
                    start as nat,
                    size as nat,
                    k as nat,
                ) && out@[k].1 == chunk_end(start as nat, end as nat, size as nat, k as nat),
        decreases end - s + (if out@.len() == 0 { 1int } else { 0int }),
    {
        let n = out.len();
        proof {
            assert((n as nat + 1) * (size as nat) == n as nat * (size as nat) + size as nat)
                by (nonlinear_arith);
        }
        if end - s > size {
            out.push((s, s + size));
            s = s + size;
        } else {
            out.push((s, end));
            proof {
                let len = (end - start) as nat;
                let m = n as nat;
                let z = size as nat;
                if end > start {
                    assert(s as nat == start as nat + m * z);
                    if m == 0 {
                        assert(m * z == 0) by (nonlinear_arith)
                            requires
                                m == 0,
                        ;
                    } else {
                        assert(s < end);
                    }
                    assert(m * z < len);
                    assert(len <= (m + 1) * z);
                    assert(((len + z - 1) as nat) / z == m + 1) by (nonlinear_arith)
                        requires
                            m * z < len <= (m + 1) * z,
                            z > 0,
                    ;
                } else {
                    assert(m == 0);
                }
            }
            break;
        }
    }
    out
}

/// Cuts every interval into chunks of at most `chunk_size` bases, interval by
/// interval, in order.
pub fn plan(intervals: &Vec<TargetInterval>, chunk_size: u32) -> (r: Vec<RegionChunk>)
    requires
        chunk_size > 0,
        forall|i: int| 0 <= i < intervals@.len() ==> #[trigger] intervals@[i].start <= intervals@[i].end,
    ensures
        r@.len() == planned_len(intervals@, chunk_size as nat, intervals@.len() as nat),
        forall|i: int, k: int|
            0 <= i < intervals@.len() && 0 <= k < chunk_count(
                intervals@[i].start as nat,
                intervals@[i].end as nat,
                chunk_size as nat,
            ) ==> #[trigger] r@[planned_len(intervals@, chunk_size as nat, i as nat) + k]
                == planned_chunk(intervals@[i], chunk_size as nat, k as nat),
{
    let mut out: Vec<RegionChunk> = Vec::new();
    let mut i: usize = 0;
    while i < intervals.len()
        invariant
            0 <= i <= intervals@.len(),
            chunk_size > 0,
            forall|j: int| 0 <= j < intervals@.len() ==> #[trigger] intervals@[j].start <= intervals@[j].end,
            out@.len() == planned_len(intervals@, chunk_size as nat, i as nat),
            forall|j: int, k: int|
                0 <= j < i && 0 <= k < chunk_count(
                    intervals@[j].start as nat,
                    intervals@[j].end as nat,
                    chunk_size as nat,
                ) ==> #[trigger] out@[planned_len(intervals@, chunk_size as nat, j as nat) + k]
                    == planned_chunk(intervals@[j], chunk_size as nat, k as nat),
        decreases intervals@.len() - i,
    {
        let iv = &intervals[i];
        let spans = split_interval(iv.start, iv.end, chunk_size);
        let ghost base = out@.len();
        proof {
            lemma_planned_len_monotone(intervals@, chunk_size as nat, i as nat);
        }
        let mut t: usize = 0;
        while t < spans.len()
            invariant
                0 <= t <= spans@.len(),
                i < intervals@.len(),
                *iv == intervals@[i as int],
                base == planned_len(intervals@, chunk_size as nat, i as nat),
                out@.len() == base + t,
                spans@.len() == chunk_count(iv.start as nat, iv.end as nat, chunk_size as nat),
                forall|k: int|
                    0 <= k < spans@.len() ==> (#[trigger] spans@[k]).0 == chunk_start(
                        iv.start as nat,
                        chunk_size as nat,
                        k as nat,
                    ) && spans@[k].1 == chunk_end(
                        iv.start as nat,
                        iv.end as nat,
                        chunk_size as nat,
                        k as nat,
                    ),
                forall|k: int| 0 <= k < t ==> #[trigger] out@[base + k] == planned_chunk(*iv, chunk_size as nat, k as nat),
                forall|j: int, k: int|
                    0 <= j < i && 0 <= k < chunk_count(
                        intervals@[j].start as nat,
                        intervals@[j].end as nat,
                        chunk_size as nat,
                    ) ==> #[trigger] out@[planned_len(intervals@, chunk_size as nat, j as nat) + k]
                        == planned_chunk(intervals@[j], chunk_size as nat, k as nat),
            decreases spans@.len() - t,
        {
            let (s, e) = spans[t];
            let chrom = iv.chrom.clone();
            let ghost prev = out@;
            out.push(RegionChunk { chrom, start: s, end: e });
            proof {
                assert forall|j: int, k: int|
                    0 <= j < i && 0 <= k < chunk_count(
                        intervals@[j].start as nat,
                        intervals@[j].end as nat,
                        chunk_size as nat,
                    ) implies #[trigger] out@[planned_len(intervals@, chunk_size as nat, j as nat) + k]
                        == planned_chunk(intervals@[j], chunk_size as nat, k as nat) by {
                    lemma_planned_prefix(intervals@, chunk_size as nat, j as nat, i as nat, k as nat);
                    let at = planned_len(intervals@, chunk_size as nat, j as nat) + k;
                    assert(out@[at] == prev[at]);
                }
            }
            t = t + 1;
        }
        i = i + 1;
    }
    out
}

/// Where the chunks of interval `i` begin in the plan: the number of chunks
/// of the intervals before it.
pub open spec fn planned_len(intervals: Seq<TargetInterval>, size: nat, i: nat) -> nat
    decreases i,
{
    if i == 0 {
        0
    } else {
        planned_len(intervals, size, (i - 1) as nat) + chunk_count(
            intervals[i - 1].start as nat,
            intervals[i - 1].end as nat,
            size,
        )
    }
}

/// Chunk `k` of an interval, as planned.
pub open spec fn planned_chunk(iv: TargetInterval, size: nat, k: nat) -> RegionChunk {
    RegionChunk {
        chrom: iv.chrom,
        start: chunk_start(iv.start as nat, size, k) as u32,
        end: chunk_end(iv.start as nat, iv.end as nat, size, k) as u32,
    }
}

proof fn lemma_planned_len_monotone(intervals: Seq<TargetInterval>, size: nat, i: nat)
    ensures
        planned_len(intervals, size, i + 1) == planned_len(intervals, size, i) + chunk_count(
            intervals[i as int].start as nat,
            intervals[i as int].end as nat,
            size,
        ),
{
}

proof fn lemma_planned_prefix(intervals: Seq<TargetInterval>, size: nat, j: nat, i: nat, k: nat)
    requires
        j < i,
        k < chunk_count(intervals[j as int].start as nat, intervals[j as int].end as nat, size),
    ensures
        planned_len(intervals, size, j) + k < planned_len(intervals, size, i),
    decreases i - j,
{
    if j + 1 < i {
        lemma_planned_prefix(intervals, size, j, (i - 1) as nat, k);
    }
}

} // verus!
