use crate::nucleotide::complement_base_code;
use crate::nucleotide::complement_of;
use crate::pileup::{ChunkPileup, PileupColumn, SamplePileup};
use itertools::Itertools;
use vstd::prelude::*;

verus! {

/// The byte of a decimal digit.
pub open spec fn digit_byte(d: nat) -> u8 {
    (48 + d) as u8
}

/// A number written in decimal, without sign or padding.
pub open spec fn decimal(n: nat) -> Seq<u8>
    decreases n,
{
    if n < 10 {
        seq![digit_byte(n)]
    } else {
        decimal(n / 10).push(digit_byte(n % 10))
    }
}

/// The items one after another, with `sep` between each two.
pub open spec fn joined(items: Seq<Seq<u8>>, sep: Seq<u8>) -> Seq<u8>
    decreases items.len(),
{
    if items.len() == 0 {
        Seq::empty()
    } else if items.len() == 1 {
        items[0]
    } else {
        joined(items.drop_last(), sep) + sep + items.last()
    }
}

/// Numbers in decimal, separated by the byte `sep`.
pub open spec fn numbers_joined(v: Seq<u64>, sep: u8) -> Seq<u8> {
    joined(v.map_values(|x: u64| decimal(x as nat)), seq![sep])
}

/// Relies on itertools' `Itertools::join`: every item written with its
/// `Display` (decimal, for an unsigned integer), with the separator between
/// each two, and nothing for no item.
#[verifier::external_body]
fn join_numbers(v: &Vec<u64>, sep: u8) -> (r: Vec<u8>)
    requires
        sep < 128,
    ensures
        r@ == numbers_joined(v@, sep),
{
    v.iter().join(&char::from(sep).to_string()).into_bytes()
}

/// Appends `n` in decimal.
pub fn write_decimal(out: &mut Vec<u8>, n: u64)
    ensures
        final(out)@ == old(out)@ + decimal(n as nat),
    decreases n,
{
    if n >= 10 {
        write_decimal(out, n / 10);
    }
    out.push(48 + (n % 10) as u8);
    proof {
        assert(final(out)@ =~= old(out)@ + decimal(n as nat));
    }
}

/// Which strand's statistics a field shows.
#[derive(Clone, Copy, Debug, PartialEq, Eq, Structural)]
pub enum StrandView {
    /// Forward and reverse added up.
    Combined,
    ForwardOnly,
    /// The reverse strand, read in its own orientation: the counters come in
    /// the order of the complemented bases (T, G, C, A of the forward strand).
    ReverseOnly,
}

/// The four counters a field shows, in the order A, C, G, T.
pub open spec fn shown_counts(col: PileupColumn, view: StrandView) -> Seq<u64> {
    let f = col.forward.counts@;
    let r = col.reverse.counts@;
    match view {
        StrandView::Combined => seq![
            (f[0] + r[0]) as u64,
            (f[1] + r[1]) as u64,
            (f[2] + r[2]) as u64,
            (f[3] + r[3]) as u64,
        ],
        StrandView::ForwardOnly => seq![f[0] as u64, f[1] as u64, f[2] as u64, f[3] as u64],
        StrandView::ReverseOnly => seq![r[3] as u64, r[2] as u64, r[1] as u64, r[0] as u64],
    }
}

/// The indel lengths a field shows: the forward list, then the reverse one.
pub open spec fn shown_lengths(fwd: Seq<u32>, rev: Seq<u32>, view: StrandView) -> Seq<u64> {
    let picked = match view {
        StrandView::Combined => fwd + rev,
        StrandView::ForwardOnly => fwd,
        StrandView::ReverseOnly => rev,
    };
    picked.map_values(|x: u32| x as u64)
}

/// The depth behind a field.
pub open spec fn shown_depth(col: PileupColumn, view: StrandView) -> nat {
    match view {
        StrandView::Combined => (col.forward.depth + col.reverse.depth) as nat,
        StrandView::ForwardOnly => col.forward.depth as nat,
        StrandView::ReverseOnly => col.reverse.depth as nat,
    }
}

/// The text of one sample at one position: the four counts joined by commas;
/// with indels, then a comma, the insertion lengths joined by `|`, a comma and
/// the deletion lengths joined by `|`.
pub open spec fn field_text(col: PileupColumn, view: StrandView, count_indels: bool) -> Seq<u8> {
    numbers_joined(shown_counts(col, view), 44) + if count_indels {
        seq![44u8] + numbers_joined(
            shown_lengths(col.forward.insertions@, col.reverse.insertions@, view),
            124,
        ) + seq![44u8] + numbers_joined(
            shown_lengths(col.forward.deletions@, col.reverse.deletions@, view),
            124,
        )
    } else {
        Seq::empty()
    }
}

fn lengths_as_numbers(fwd: &Vec<u32>, rev: &Vec<u32>, view: StrandView) -> (r: Vec<u64>)
    ensures
        r@ == shown_lengths(fwd@, rev@, view),
{
    let mut out: Vec<u64> = Vec::new();
    if view != StrandView::ReverseOnly {
        let mut i: usize = 0;
        while i < fwd.len()
            invariant
                0 <= i <= fwd@.len(),
                out@ == fwd@.take(i as int).map_values(|x: u32| x as u64),
            decreases fwd@.len() - i,
        {
            out.push(fwd[i] as u64);
            i = i + 1;
            proof {
                assert(out@ =~= fwd@.take(i as int).map_values(|x: u32| x as u64));
            }
        }
    }
    let ghost before = out@;
    if view != StrandView::ForwardOnly {
        let mut i: usize = 0;
        while i < rev.len()
            invariant
                0 <= i <= rev@.len(),
                out@ == before + rev@.take(i as int).map_values(|x: u32| x as u64),
            decreases rev@.len() - i,
        {
            out.push(rev[i] as u64);
            i = i + 1;
            proof {
                assert(out@ =~= before + rev@.take(i as int).map_values(|x: u32| x as u64));
            }
        }
    }
    proof {
        assert(fwd@.take(fwd@.len() as int) =~= fwd@);
        assert(rev@.take(rev@.len() as int) =~= rev@);
        assert((fwd@ + rev@).map_values(|x: u32| x as u64) =~= fwd@.map_values(|x: u32| x as u64)
            + rev@.map_values(|x: u32| x as u64));
        assert(out@ =~= shown_lengths(fwd@, rev@, view));
    }
    out
}

/// Renders the field of one sample at one position.
pub fn sample_field(col: &PileupColumn, view: StrandView, count_indels: bool) -> (r: Vec<u8>)
    requires
        col.wf(),
    ensures
        r@ == field_text(*col, view, count_indels),
{
    let f = &col.forward.counts;
    let b = &col.reverse.counts;
    let counts: Vec<u64> = match view {
        StrandView::Combined => vec![
            (f[0] + b[0]) as u64,
            (f[1] + b[1]) as u64,
            (f[2] + b[2]) as u64,
            (f[3] + b[3]) as u64,
        ],
        StrandView::ForwardOnly => vec![f[0] as u64, f[1] as u64, f[2] as u64, f[3] as u64],
        StrandView::ReverseOnly => vec![b[3] as u64, b[2] as u64, b[1] as u64, b[0] as u64],
    };
    proof {
        assert(counts@ =~= shown_counts(*col, view));
    }
    let mut out = join_numbers(&counts, 44);
    if count_indels {
        let ins = lengths_as_numbers(&col.forward.insertions, &col.reverse.insertions, view);
        let del = lengths_as_numbers(&col.forward.deletions, &col.reverse.deletions, view);
        let mut ins_text = join_numbers(&ins, 124);
        let mut del_text = join_numbers(&del, 124);
        out.push(44);
        out.append(&mut ins_text);
        out.push(44);
        out.append(&mut del_text);
    }
    proof {
        assert(out@ =~= field_text(*col, view, count_indels));
    }
    out
}

/// The largest depth among the samples (0 for no sample).
pub open spec fn max_depth(d: Seq<u64>) -> nat
    decreases d.len(),
{
    if d.len() == 0 {
        0
    } else {
        let m = max_depth(d.drop_last());
        if d.last() as nat > m {
            d.last() as nat
        } else {
            m
        }
    }
}

/// The depths of all samples added up.
pub open spec fn total_depth(d: Seq<u64>) -> nat
    decreases d.len(),
{
    if d.len() == 0 {
        0
    } else {
        total_depth(d.drop_last()) + d.last() as nat
    }
}

/// A row is kept when some sample reaches `min_depth` and the samples
/// together reach `mean_depth` per sample.
pub open spec fn passes_depth(d: Seq<u64>, min_depth: nat, mean_depth: nat) -> bool {
    max_depth(d) >= min_depth && total_depth(d) >= mean_depth * d.len()
}

/// Applies the depth thresholds to the per-sample depths of one row.
pub fn passes_depth_filter(depths: &Vec<u64>, min_depth: u32, mean_depth: u32) -> (r: bool)
    ensures
        r == passes_depth(depths@, min_depth as nat, mean_depth as nat),
{
    let mut m: u64 = 0;
    let mut total: u128 = 0;
    let mut i: usize = 0;
    while i < depths.len()
        invariant
            0 <= i <= depths@.len(),
            m == max_depth(depths@.take(i as int)),
            total == total_depth(depths@.take(i as int)),
            total <= i * 0xFFFF_FFFF_FFFF_FFFFnat,
        decreases depths@.len() - i,
    {
        proof {
            assert(depths@.take(i + 1).drop_last() =~= depths@.take(i as int));
            assert((i + 1) * 0xFFFF_FFFF_FFFF_FFFFnat == i * 0xFFFF_FFFF_FFFF_FFFFnat
                + 0xFFFF_FFFF_FFFF_FFFFnat) by (nonlinear_arith);
            assert((i + 1) * 0xFFFF_FFFF_FFFF_FFFFnat <= 0x1_0000_0000_0000_0000nat
                * 0xFFFF_FFFF_FFFF_FFFFnat) by (nonlinear_arith)
                requires
                    i < 0x1_0000_0000_0000_0000nat,
            ;
        }
        let d = depths[i];
        if d > m {
            m = d;
        }
        total = total + d as u128;
        i = i + 1;
    }
    proof {
        assert(depths@.take(i as int) =~= depths@);
        assert(mean_depth * depths@.len() <= 0xFFFF_FFFFnat * 0xFFFF_FFFF_FFFF_FFFFnat)
            by (nonlinear_arith)
            requires
                mean_depth <= 0xFFFF_FFFFnat,
                depths@.len() <= 0xFFFF_FFFF_FFFF_FFFFnat,
        ;
    }
    let need: u128 = mean_depth as u128 * depths.len() as u128;
    m >= min_depth as u64 && total >= need
}

/// Raising the minimum depth never lets through what a lower one held back.
pub proof fn lemma_depth_filter_monotone(d: Seq<u64>, low: nat, high: nat, mean_depth: nat)
    requires
        low <= high,
        passes_depth(d, high, mean_depth),
    ensures
        passes_depth(d, low, mean_depth),
{
}

/// How the two strands of a position are reported.
#[derive(Clone, Copy, Debug, PartialEq, Eq, Structural)]
pub enum StrandMode {
    /// One row, strands added up, marked `.`.
    Merged,
    /// A forward row (`+`) and a reverse row (`-`), each filtered on its own.
    Split,
    /// One row, strands added up, marked `+/-`.
    TaggedCombined,
}

/// The strand column of a row.
#[derive(Clone, Copy, Debug, PartialEq, Eq, Structural)]
pub enum Marker {
    Unstranded,
    Forward,
    Reverse,
    Both,
}

/// The text of a strand marker: `.`, `+`, `-` or `+/-`.
pub open spec fn marker_text(m: Marker) -> Seq<u8> {
    match m {
        Marker::Unstranded => seq![46u8],
        Marker::Forward => seq![43u8],
        Marker::Reverse => seq![45u8],
        Marker::Both => seq![43u8, 47u8, 45u8],
    }
}

/// One output row: a 1-based position, its strand marker, the reference base
/// (complemented on a reverse row) and one field per sample.
#[derive(Debug)]
pub struct OutputRow {
    pub position: u32,
    pub marker: Marker,
    pub reference: u8,
    pub fields: Vec<Vec<u8>>,
}

/// An output row as values.
pub struct RowModel {
    pub position: nat,
    pub marker: Marker,
    pub reference: u8,
    pub fields: Seq<Seq<u8>>,
}

impl View for OutputRow {
    type V = RowModel;

    open spec fn view(&self) -> RowModel {
        RowModel {
            position: self.position as nat,
            marker: self.marker,
            reference: self.reference,
            fields: self.fields@.map_values(|f: Vec<u8>| f@),
        }
    }
}

/// The depth of each sample at offset `k` of the chunk.
pub open spec fn depths_at(samples: Seq<SamplePileup>, k: int, view: StrandView) -> Seq<u64> {
    Seq::new(samples.len(), |s: int| shown_depth(samples[s].columns@[k], view) as u64)
}

/// The field of each sample at offset `k` of the chunk.
pub open spec fn fields_at(samples: Seq<SamplePileup>, k: int, view: StrandView, count_indels: bool) -> Seq<
    Seq<u8>,
> {
    Seq::new(samples.len(), |s: int| field_text(samples[s].columns@[k], view, count_indels))
}

/// The row built for offset `k` of the chunk from one strand view.
pub open spec fn row_for(
    samples: Seq<SamplePileup>,
    start: u32,
    k: int,
    marker: Marker,
    reference: u8,
    view: StrandView,
    count_indels: bool,
) -> RowModel {
    RowModel {
        position: (start + k + 1) as nat,
        marker,
        reference,
        fields: fields_at(samples, k, view, count_indels),
    }
}

/// The row when `keep` holds, else nothing.
pub open spec fn row_if(keep: bool, row: RowModel) -> Seq<RowModel> {
    if keep {
        seq![row]
    } else {
        Seq::empty()
    }
}

/// The rows of offset `k` of the chunk, whose reference base is `reference[k]`.
pub open spec fn rows_at(
    samples: Seq<SamplePileup>,
    start: u32,
    reference: Seq<u8>,
    mode: StrandMode,
    min_depth: nat,
    mean_depth: nat,
    count_indels: bool,
    k: int,
) -> Seq<RowModel> {
    let rb = reference[k];
    match mode {
        StrandMode::Merged => row_if(
            passes_depth(depths_at(samples, k, StrandView::Combined), min_depth, mean_depth),
            row_for(samples, start, k, Marker::Unstranded, rb, StrandView::Combined, count_indels),
        ),
        StrandMode::TaggedCombined => row_if(
            passes_depth(depths_at(samples, k, StrandView::Combined), min_depth, mean_depth),
            row_for(samples, start, k, Marker::Both, rb, StrandView::Combined, count_indels),
        ),
        StrandMode::Split => row_if(
            passes_depth(depths_at(samples, k, StrandView::ForwardOnly), min_depth, mean_depth),
            row_for(samples, start, k, Marker::Forward, rb, StrandView::ForwardOnly, count_indels),
        ) + row_if(
            passes_depth(depths_at(samples, k, StrandView::ReverseOnly), min_depth, mean_depth),
            row_for(
                samples,
                start,
                k,
                Marker::Reverse,
                complement_of(rb),
                StrandView::ReverseOnly,
                count_indels,
            ),
        ),
    }
}

/// The rows of the first `n` offsets of the chunk, position by position.
pub open spec fn rows_upto(
    samples: Seq<SamplePileup>,
    start: u32,
    reference: Seq<u8>,
    mode: StrandMode,
    min_depth: nat,
    mean_depth: nat,
    count_indels: bool,
    n: nat,
) -> Seq<RowModel>
    decreases n,
{
    if n == 0 {
        Seq::empty()
    } else {
        rows_upto(samples, start, reference, mode, min_depth, mean_depth, count_indels, (n - 1) as nat)
            + rows_at(samples, start, reference, mode, min_depth, mean_depth, count_indels, n - 1)
    }
}

/// How many positions of the chunk are reported: those of `[start, end)` for
/// which the reference has a base (`reference[k]` is the base at `start + k`).
pub open spec fn reported_len(chunk: ChunkPileup, reference: Seq<u8>) -> nat {
    if reference.len() < chunk.end - chunk.start {
        reference.len()
    } else {
        (chunk.end - chunk.start) as nat
    }
}

/// The rows of a chunk.
pub open spec fn chunk_rows(
    chunk: ChunkPileup,
    reference: Seq<u8>,
    mode: StrandMode,
    min_depth: nat,
    mean_depth: nat,
    count_indels: bool,
) -> Seq<RowModel> {
    rows_upto(
        chunk.samples@,
        chunk.start,
        reference,
        mode,
        min_depth,
        mean_depth,
        count_indels,
        reported_len(chunk, reference),
    )
}

fn row_depths(chunk: &ChunkPileup, k: usize, view: StrandView) -> (d: Vec<u64>)
    requires
        chunk.wf(),
        k < chunk.end - chunk.start,
    ensures
        d@ == depths_at(chunk.samples@, k as int, view),
{
    let mut d: Vec<u64> = Vec::new();
    let mut s: usize = 0;
    while s < chunk.samples.len()
        invariant
            chunk.wf(),
            k < chunk.end - chunk.start,
            0 <= s <= chunk.samples@.len(),
            d@ == depths_at(chunk.samples@, k as int, view).take(s as int),
        decreases chunk.samples@.len() - s,
    {
        let col = &chunk.samples[s].columns[k];
        let v: u64 = match view {
            StrandView::Combined => (col.forward.depth + col.reverse.depth) as u64,
            StrandView::ForwardOnly => col.forward.depth as u64,
            StrandView::ReverseOnly => col.reverse.depth as u64,
        };
        d.push(v);
        s = s + 1;
        proof {
            assert(d@ =~= depths_at(chunk.samples@, k as int, view).take(s as int));
        }
    }
    proof {
        assert(d@ =~= depths_at(chunk.samples@, k as int, view));
    }
    d
}

fn row_fields(chunk: &ChunkPileup, k: usize, view: StrandView, count_indels: bool) -> (f: Vec<
    Vec<u8>,
>)
    requires
        chunk.wf(),
        k < chunk.end - chunk.start,
    ensures
        f@.map_values(|x: Vec<u8>| x@) == fields_at(chunk.samples@, k as int, view, count_indels),
{
    let mut f: Vec<Vec<u8>> = Vec::new();
    let mut s: usize = 0;
    while s < chunk.samples.len()
        invariant
            chunk.wf(),
            k < chunk.end - chunk.start,
            0 <= s <= chunk.samples@.len(),
            f@.map_values(|x: Vec<u8>| x@) == fields_at(chunk.samples@, k as int, view, count_indels).take(
                s as int,
            ),
        decreases chunk.samples@.len() - s,
    {
        let text = sample_field(&chunk.samples[s].columns[k], view, count_indels);
        let ghost prev = f@;
        let ghost text_view = text@;
        proof {
            assert(prev.map_values(|x: Vec<u8>| x@).len() == s);
        }
        f.push(text);
        s = s + 1;
        proof {
            assert(f@ == prev.push(f@[s - 1]));
            assert(f@[s - 1]@ == text_view);
            assert(text_view == fields_at(chunk.samples@, k as int, view, count_indels)[s - 1]);
            assert(f@.map_values(|x: Vec<u8>| x@) =~= fields_at(
                chunk.samples@,
                k as int,
                view,
                count_indels,
            ).take(s as int));
        }
    }
    proof {
        assert(f@.map_values(|x: Vec<u8>| x@) =~= fields_at(
            chunk.samples@,
            k as int,
            view,
            count_indels,
        ));
    }
    f
}

/// The rows of a chunk: positions in order, each kept or dropped by the depth
/// thresholds as `mode` says.
pub fn select_rows(
    chunk: &ChunkPileup,
    reference: &Vec<u8>,
    mode: StrandMode,
    min_depth: u32,
    mean_depth: u32,
    count_indels: bool,
) -> (rows: Vec<OutputRow>)
    requires
        chunk.wf(),
    ensures
        rows@.map_values(|r: OutputRow| r@) == chunk_rows(
            *chunk,
            reference@,
            mode,
            min_depth as nat,
            mean_depth as nat,
            count_indels,
        ),
{
    let span = (chunk.end - chunk.start) as usize;
    let n: usize = if reference.len() < span {
        reference.len()
    } else {
        span
    };
    let ghost samples = chunk.samples@;
    let mut rows: Vec<OutputRow> = Vec::new();
    let mut k: usize = 0;
    while k < n
        invariant
            chunk.wf(),
            samples == chunk.samples@,
            n == reported_len(*chunk, reference@),
            0 <= k <= n,
            rows@.map_values(|r: OutputRow| r@) == rows_upto(
                samples,
                chunk.start,
                reference@,
                mode,
                min_depth as nat,
                mean_depth as nat,
                count_indels,
                k as nat,
            ),
        decreases n - k,
    {
        let ghost before = rows@;
        let position = chunk.start + k as u32 + 1;
        let rb = reference[k];
        match mode {
            StrandMode::Split => {
                let fd = row_depths(chunk, k, StrandView::ForwardOnly);
                if passes_depth_filter(&fd, min_depth, mean_depth) {
                    let fields = row_fields(chunk, k, StrandView::ForwardOnly, count_indels);
                    rows.push(OutputRow { position, marker: Marker::Forward, reference: rb, fields });
                }
                let ghost mid = rows@;
                let rd = row_depths(chunk, k, StrandView::ReverseOnly);
                if passes_depth_filter(&rd, min_depth, mean_depth) {
                    let fields = row_fields(chunk, k, StrandView::ReverseOnly, count_indels);
                    rows.push(
                        OutputRow {
                            position,
                            marker: Marker::Reverse,
                            reference: complement_base_code(rb),
                            fields,
                        },
                    );
                }
                proof {
                    assert(mid.map_values(|r: OutputRow| r@) =~= before.map_values(|r: OutputRow| r@)
                        + row_if(
                        passes_depth(
                            depths_at(samples, k as int, StrandView::ForwardOnly),
                            min_depth as nat,
                            mean_depth as nat,
                        ),
                        row_for(
                            samples,
                            chunk.start,
                            k as int,
                            Marker::Forward,
                            rb,
                            StrandView::ForwardOnly,
                            count_indels,
                        ),
                    ));
                }
            },
            _ => {
                let marker = if mode == StrandMode::Merged {
                    Marker::Unstranded
                } else {
                    Marker::Both
                };
                let d = row_depths(chunk, k, StrandView::Combined);
                if passes_depth_filter(&d, min_depth, mean_depth) {
                    let fields = row_fields(chunk, k, StrandView::Combined, count_indels);
                    rows.push(OutputRow { position, marker, reference: rb, fields });
                }
            },
        }
        k = k + 1;
        proof {
            assert(rows@.map_values(|r: OutputRow| r@) =~= before.map_values(|r: OutputRow| r@)
                + rows_at(
                samples,
                chunk.start,
                reference@,
                mode,
                min_depth as nat,
                mean_depth as nat,
                count_indels,
                k - 1,
            ));
        }
    }
    rows
}

/// One row as a line: chromosome, position, marker, reference base and the
/// sample fields, separated by tabs.
pub open spec fn row_text(chrom: Seq<u8>, r: RowModel) -> Seq<u8> {
    chrom + seq![9u8] + decimal(r.position) + seq![9u8] + marker_text(r.marker) + seq![9u8]
        + seq![r.reference] + seq![9u8] + joined(r.fields, seq![9u8]) + seq![10u8]
}

/// The lines of all rows, in order.
pub open spec fn rows_text(chrom: Seq<u8>, rows: Seq<RowModel>) -> Seq<u8>
    decreases rows.len(),
{
    if rows.len() == 0 {
        Seq::empty()
    } else {
        rows_text(chrom, rows.drop_last()) + row_text(chrom, rows.last())
    }
}

fn write_bytes(out: &mut Vec<u8>, src: &Vec<u8>)
    ensures
        final(out)@ == old(out)@ + src@,
{
    let mut i: usize = 0;
    while i < src.len()
        invariant
            0 <= i <= src@.len(),
            out@ == old(out)@ + src@.take(i as int),
        decreases src@.len() - i,
    {
        out.push(src[i]);
        i = i + 1;
        proof {
            assert(out@ =~= old(out)@ + src@.take(i as int));
        }
    }
    proof {
        assert(src@.take(i as int) =~= src@);
    }
}

fn write_joined(out: &mut Vec<u8>, items: &Vec<Vec<u8>>, sep: u8)
    ensures
        final(out)@ == old(out)@ + joined(items@.map_values(|x: Vec<u8>| x@), seq![sep]),
{
    let ghost all = items@.map_values(|x: Vec<u8>| x@);
    let mut i: usize = 0;
    while i < items.len()
        invariant
            0 <= i <= items@.len(),
            all == items@.map_values(|x: Vec<u8>| x@),
            out@ == old(out)@ + joined(all.take(i as int), seq![sep]),
        decreases items@.len() - i,
    {
        let ghost prev = out@;
        if i > 0 {
            out.push(sep);
        }
        write_bytes(out, &items[i]);
        i = i + 1;
        proof {
            assert(all.take(i as int).drop_last() =~= all.take(i - 1));
            if i == 1 {
                assert(joined(all.take(0), seq![sep]) =~= Seq::<u8>::empty());
            }
            assert(out@ =~= old(out)@ + joined(all.take(i as int), seq![sep]));
        }
    }
    proof {
        assert(all.take(i as int) =~= all);
    }
}

fn write_marker(out: &mut Vec<u8>, m: Marker)
    ensures
        final(out)@ == old(out)@ + marker_text(m),
{
    match m {
        Marker::Unstranded => out.push(46),
        Marker::Forward => out.push(43),
        Marker::Reverse => out.push(45),
        Marker::Both => {
            out.push(43);
            out.push(47);
            out.push(45);
        },
    }
    proof {
        assert(final(out)@ =~= old(out)@ + marker_text(m));
    }
}

fn write_row(out: &mut Vec<u8>, chrom: &Vec<u8>, row: &OutputRow)
    ensures
        final(out)@ == old(out)@ + row_text(chrom@, row@),
{
    write_bytes(out, chrom);
    out.push(9);
    write_decimal(out, row.position as u64);
    out.push(9);
    write_marker(out, row.marker);
    out.push(9);
    out.push(row.reference);
    out.push(9);
    write_joined(out, &row.fields, 9);
    out.push(10);
    proof {
        assert(final(out)@ =~= old(out)@ + row_text(chrom@, row@));
    }
}

/// Writes rows as tab-separated lines, each ended by a newline.
pub fn render_rows(chrom: &Vec<u8>, rows: &Vec<OutputRow>) -> (text: Vec<u8>)
    ensures
        text@ == rows_text(chrom@, rows@.map_values(|r: OutputRow| r@)),
{
    let ghost all = rows@.map_values(|r: OutputRow| r@);
    let mut out: Vec<u8> = Vec::new();
    let mut i: usize = 0;
    while i < rows.len()
        invariant
            0 <= i <= rows@.len(),
            all == rows@.map_values(|r: OutputRow| r@),
            out@ == rows_text(chrom@, all.take(i as int)),
        decreases rows@.len() - i,
    {
        let ghost prev = out@;
        write_row(&mut out, chrom, &rows[i]);
        i = i + 1;
        proof {
            assert(all.take(i as int).drop_last() =~= all.take(i - 1));
        }
    }
    proof {
        assert(all.take(i as int) =~= all);
    }
    out
}

/// The text block of one chunk: its selected rows, rendered.
pub fn format_chunk(
    chrom: &Vec<u8>,
    chunk: &ChunkPileup,
    reference: &Vec<u8>,
    mode: StrandMode,
    min_depth: u32,
    mean_depth: u32,
    count_indels: bool,
) -> (text: Vec<u8>)
    requires
        chunk.wf(),
    ensures
        text@ == rows_text(
            chrom@,
            chunk_rows(*chunk, reference@, mode, min_depth as nat, mean_depth as nat, count_indels),
        ),
{
    let rows = select_rows(chunk, reference, mode, min_depth, mean_depth, count_indels);
    render_rows(chrom, &rows)
}

/// The first columns of the header line: `Chrom`, `Pos`, `Strand`, `Ref`.
pub open spec fn header_prefix() -> Seq<u8> {
    seq![67u8, 104, 114, 111, 109, 9, 80, 111, 115, 9, 83, 116, 114, 97, 110, 100, 9, 82, 101, 102]
}

/// A tab and a sample name for each sample.
pub open spec fn sample_columns(names: Seq<Seq<u8>>) -> Seq<u8>
    decreases names.len(),
{
    if names.len() == 0 {
        Seq::empty()
    } else {
        sample_columns(names.drop_last()) + seq![9u8] + names.last()
    }
}

/// The header line: the fixed columns, then one column per sample name.
pub fn header_line(names: &Vec<Vec<u8>>) -> (text: Vec<u8>)
    ensures
        text@ == header_prefix() + sample_columns(names@.map_values(|x: Vec<u8>| x@)) + seq![10u8],
{
    let mut out: Vec<u8> = vec![67, 104, 114, 111, 109, 9, 80, 111, 115, 9, 83, 116, 114, 97, 110, 100, 9, 82, 101, 102];
    let ghost all = names@.map_values(|x: Vec<u8>| x@);
    let mut i: usize = 0;
    while i < names.len()
        invariant
            0 <= i <= names@.len(),
            all == names@.map_values(|x: Vec<u8>| x@),
            out@ == header_prefix() + sample_columns(all.take(i as int)),
        decreases names@.len() - i,
    {
        let ghost prev = out@;
        out.push(9);
        write_bytes(&mut out, &names[i]);
        i = i + 1;
        proof {
            assert(all.take(i as int).drop_last() =~= all.take(i - 1));
            assert(out@ =~= header_prefix() + sample_columns(all.take(i as int)));
        }
    }
    out.push(10);
    proof {
        assert(all.take(i as int) =~= all);
    }
    out
}

proof fn lemma_rows_at_monotone(
    samples: Seq<SamplePileup>,
    start: u32,
    reference: Seq<u8>,
    mode: StrandMode,
    low: nat,
    high: nat,
    mean_depth: nat,
    count_indels: bool,
    k: int,
    r: RowModel,
)
    requires
        low <= high,
        rows_at(samples, start, reference, mode, high, mean_depth, count_indels, k).contains(r),
    ensures
        rows_at(samples, start, reference, mode, low, mean_depth, count_indels, k).contains(r),
{
    let hi = rows_at(samples, start, reference, mode, high, mean_depth, count_indels, k);
    let lo = rows_at(samples, start, reference, mode, low, mean_depth, count_indels, k);
    let i = choose|i: int| 0 <= i < hi.len() && hi[i] == r;
    match mode {
        StrandMode::Split => {
            let fh = passes_depth(depths_at(samples, k, StrandView::ForwardOnly), high, mean_depth);
            let fl = passes_depth(depths_at(samples, k, StrandView::ForwardOnly), low, mean_depth);
            let rh = passes_depth(depths_at(samples, k, StrandView::ReverseOnly), high, mean_depth);
            let rl = passes_depth(depths_at(samples, k, StrandView::ReverseOnly), low, mean_depth);
            assert(fh ==> fl);
            assert(rh ==> rl);
            if fh && i == 0 {
                assert(lo[0] == r);
            } else {
                assert(rh);
                if fl {
                    assert(lo[1] == r);
                } else {
                    assert(lo[0] == r);
                }
            }
        },
        _ => {
            assert(lo[0] == r);
        },
    }
}

proof fn lemma_rows_upto_monotone(
    samples: Seq<SamplePileup>,
    start: u32,
    reference: Seq<u8>,
    mode: StrandMode,
    low: nat,
    high: nat,
    mean_depth: nat,
    count_indels: bool,
    n: nat,
    r: RowModel,
)
    requires
        low <= high,
        rows_upto(samples, start, reference, mode, high, mean_depth, count_indels, n).contains(r),
    ensures
        rows_upto(samples, start, reference, mode, low, mean_depth, count_indels, n).contains(r),
    decreases n,
{
    if n > 0 {
        let m = (n - 1) as nat;
        let a = rows_upto(samples, start, reference, mode, high, mean_depth, count_indels, m);
        let b = rows_at(samples, start, reference, mode, high, mean_depth, count_indels, n - 1);
        let al = rows_upto(samples, start, reference, mode, low, mean_depth, count_indels, m);
        let bl = rows_at(samples, start, reference, mode, low, mean_depth, count_indels, n - 1);
        let i = choose|i: int| 0 <= i < (a + b).len() && (a + b)[i] == r;
        if i < a.len() {
            assert(a[i] == r);
            lemma_rows_upto_monotone(samples, start, reference, mode, low, high, mean_depth, count_indels, m, r);
            let j = choose|j: int| 0 <= j < al.len() && al[j] == r;
            assert((al + bl)[j] == r);
        } else {
            assert(b[i - a.len()] == r);
            lemma_rows_at_monotone(samples, start, reference, mode, low, high, mean_depth, count_indels, n - 1, r);
            let j = choose|j: int| 0 <= j < bl.len() && bl[j] == r;
            assert((al + bl)[al.len() + j] == r);
        }
    }
}

/// Raising the minimum depth, all else the same, never adds a row: every row
/// that a chunk yields at `high` it also yields at `low`.
pub proof fn lemma_rows_monotone_in_min_depth(
    chunk: ChunkPileup,
    reference: Seq<u8>,
    mode: StrandMode,
    low: nat,
    high: nat,
    mean_depth: nat,
    count_indels: bool,
)
    requires
        low <= high,
    ensures
        forall|r: RowModel|
            #[trigger] chunk_rows(chunk, reference, mode, high, mean_depth, count_indels).contains(r)
                ==> chunk_rows(chunk, reference, mode, low, mean_depth, count_indels).contains(r),
{
    assert forall|r: RowModel|
        #[trigger] chunk_rows(chunk, reference, mode, high, mean_depth, count_indels).contains(r)
        implies chunk_rows(chunk, reference, mode, low, mean_depth, count_indels).contains(r) by {
        lemma_rows_upto_monotone(
            chunk.samples@,
            chunk.start,
            reference,
            mode,
            low,
            high,
            mean_depth,
            count_indels,
            reported_len(chunk, reference),
            r,
        );
    }
}

} // verus!
