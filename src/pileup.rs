use crate::nucleotide::{nucleotide_of, slot_of, Nucleotide};
use vstd::prelude::*;

verus! {

/// An insertion or deletion that an alignment reports at a reference position.
#[derive(Clone, Copy, Debug, PartialEq, Eq, Structural)]
pub enum IndelEvent {
    NoIndel,
    Insertion(u32),
    Deletion(u32),
}

/// What one alignment shows at one reference position of a pileup.
#[derive(Debug)]
pub struct AlignedRead {
    /// The read identifier (query name); mates and split alignments share it.
    pub qname: Vec<u8>,
    pub mapq: u8,
    /// The alignment lies on the reverse strand of the reference.
    pub reverse: bool,
    pub first_in_pair: bool,
    pub second_in_pair: bool,
    /// The read base at this position; `None` where the alignment has a
    /// deletion or a reference skip here.
    pub base: Option<u8>,
    /// The base quality, where one is recorded.
    pub qual: Option<u8>,
    pub indel: IndelEvent,
}

/// The strand of the sequenced DNA fragment (the template).
#[derive(Clone, Copy, Debug, PartialEq, Eq, Structural)]
pub enum Strand {
    Forward,
    Reverse,
}

/// The template lies on the reverse strand: the alignment's own orientation,
/// inverted for the second read of a pair.
pub open spec fn template_reverse(r: AlignedRead) -> bool {
    r.reverse != r.second_in_pair
}

/// Infers the template strand of an alignment.
pub fn template_strand(r: &AlignedRead) -> (s: Strand)
    ensures
        (s == Strand::Reverse) == template_reverse(*r),
{
    if r.reverse != r.second_in_pair {
        Strand::Reverse
    } else {
        Strand::Forward
    }
}

/// A first read and a second read of a pair with the same orientation flag
/// come from opposite template strands.
pub proof fn lemma_mates_opposite_strands(first: AlignedRead, second: AlignedRead)
    requires
        first.first_in_pair && !first.second_in_pair,
        second.second_in_pair,
        first.reverse == second.reverse,
    ensures
        template_reverse(first) != template_reverse(second),
{
}

/// Alignment `a` at index `i` is preferred to alignment `b` at index `j` of the
/// same read: higher mapping quality first, then the first read of the pair,
/// then the earlier index.
pub open spec fn outranks(a: AlignedRead, i: int, b: AlignedRead, j: int) -> bool {
    a.mapq > b.mapq || (a.mapq == b.mapq && ((a.first_in_pair && !b.first_in_pair) || (
    a.first_in_pair == b.first_in_pair && i < j)))
}

/// Alignment `i` is the one that speaks for its read at this position: it is
/// preferred to every other alignment with the same query name.
pub open spec fn is_representative(reads: Seq<AlignedRead>, i: int) -> bool {
    forall|j: int|
        0 <= j < reads.len() && j != i && reads[j].qname@ == reads[i].qname@ ==> #[trigger] outranks(
            reads[i],
            i,
            reads[j],
            j,
        )
}

/// Whether two read names are the same.
pub fn same_name(a: &Vec<u8>, b: &Vec<u8>) -> (r: bool)
    ensures
        r == (a@ == b@),
{
    if a.len() != b.len() {
        return false;
    }
    let mut k: usize = 0;
    while k < a.len()
        invariant
            a@.len() == b@.len(),
            0 <= k <= a@.len(),
            forall|m: int| 0 <= m < k ==> a@[m] == b@[m],
        decreases a@.len() - k,
    {
        if a[k] != b[k] {
            return false;
        }
        k = k + 1;
    }
    assert(a@ =~= b@);
    true
}

fn outranks_at(a: &AlignedRead, i: usize, b: &AlignedRead, j: usize) -> (r: bool)
    ensures
        r == outranks(*a, i as int, *b, j as int),
{
    if a.mapq != b.mapq {
        a.mapq > b.mapq
    } else if a.first_in_pair != b.first_in_pair {
        a.first_in_pair
    } else {
        i < j
    }
}

/// Whether alignment `i` is the representative of its read in the column.
pub fn representative_at(reads: &Vec<AlignedRead>, i: usize) -> (r: bool)
    requires
        i < reads@.len(),
    ensures
        r == is_representative(reads@, i as int),
{
    let mut j: usize = 0;
    while j < reads.len()
        invariant
            i < reads@.len(),
            0 <= j <= reads@.len(),
            forall|m: int|
                0 <= m < j && m != i && reads@[m].qname@ == reads@[i as int].qname@
                    ==> #[trigger] outranks(reads@[i as int], i as int, reads@[m], m),
        decreases reads@.len() - j,
    {
        if j != i && same_name(&reads[j].qname, &reads[i].qname) && !outranks_at(
            &reads[i],
            i,
            &reads[j],
            j,
        ) {
            return false;
        }
        j = j + 1;
    }
    true
}

/// Two different alignments of one read are never both representatives.
pub proof fn lemma_at_most_one_representative(reads: Seq<AlignedRead>, i: int, j: int)
    requires
        0 <= i < reads.len(),
        0 <= j < reads.len(),
        i != j,
        reads[i].qname@ == reads[j].qname@,
    ensures
        !(is_representative(reads, i) && is_representative(reads, j)),
{
    if is_representative(reads, i) && is_representative(reads, j) {
        assert(outranks(reads[i], i, reads[j], j));
        assert(outranks(reads[j], j, reads[i], i));
    }
}

/// The preferred alignment, among the first `n`, of the read named `name`.
proof fn lemma_best_in_prefix(reads: Seq<AlignedRead>, name: Seq<u8>, n: int, i: int) -> (b: int)
    requires
        0 <= i < n <= reads.len(),
        reads[i].qname@ == name,
    ensures
        0 <= b < n,
        reads[b].qname@ == name,
        forall|j: int|
            0 <= j < n && j != b && reads[j].qname@ == name ==> #[trigger] outranks(
                reads[b],
                b,
                reads[j],
                j,
            ),
    decreases n,
{
    if i == n - 1 {
        if exists|k: int| 0 <= k < n - 1 && reads[k].qname@ == name {
            let k = choose|k: int| 0 <= k < n - 1 && reads[k].qname@ == name;
            let c = lemma_best_in_prefix(reads, name, n - 1, k);
            if outranks(reads[c], c, reads[n - 1], n - 1) {
                c
            } else {
                assert forall|j: int|
                    0 <= j < n && j != n - 1 && reads[j].qname@ == name implies #[trigger] outranks(
                    reads[n - 1],
                    n - 1,
                    reads[j],
                    j,
                ) by {
                    if j != c {
                        assert(outranks(reads[c], c, reads[j], j));
                    }
                }
                n - 1
            }
        } else {
            n - 1
        }
    } else {
        let c = lemma_best_in_prefix(reads, name, n - 1, i);
        if reads[n - 1].qname@ == name && !outranks(reads[c], c, reads[n - 1], n - 1) {
            assert forall|j: int|
                0 <= j < n && j != n - 1 && reads[j].qname@ == name implies #[trigger] outranks(
                reads[n - 1],
                n - 1,
                reads[j],
                j,
            ) by {
                if j != c {
                    assert(outranks(reads[c], c, reads[j], j));
                }
            }
            n - 1
        } else {
            c
        }
    }
}

/// Every read present in a column has a representative there.
pub proof fn lemma_representative_exists(reads: Seq<AlignedRead>, i: int)
    requires
        0 <= i < reads.len(),
    ensures
        exists|b: int|
            0 <= b < reads.len() && reads[b].qname@ == reads[i].qname@ && #[trigger] is_representative(
                reads,
                b,
            ),
{
    let b = lemma_best_in_prefix(reads, reads[i].qname@, reads.len() as int, i);
    assert(is_representative(reads, b));
}

/// Alignment `i` adds to the depth of the strand `rev` at a quality floor of
/// `min_qual`: it represents its read, shows a base there, and that base has a
/// recorded quality of at least `min_qual`.
pub open spec fn counted(reads: Seq<AlignedRead>, i: int, min_qual: u8, rev: bool) -> bool {
    &&& is_representative(reads, i)
    &&& template_reverse(reads[i]) == rev
    &&& reads[i].base.is_some()
    &&& match reads[i].qual {
        Some(q) => q >= min_qual,
        None => false,
    }
}

/// The depth of strand `rev` over the first `n` alignments.
pub open spec fn depth_upto(reads: Seq<AlignedRead>, min_qual: u8, rev: bool, n: nat) -> nat
    decreases n,
{
    if n == 0 {
        0
    } else {
        depth_upto(reads, min_qual, rev, (n - 1) as nat) + if counted(
            reads,
            n - 1,
            min_qual,
            rev,
        ) {
            1nat
        } else {
            0nat
        }
    }
}

/// How many of the first `n` alignments add base slot `k` (A, C, G, T) on strand `rev`.
pub open spec fn base_count_upto(
    reads: Seq<AlignedRead>,
    min_qual: u8,
    rev: bool,
    k: int,
    n: nat,
) -> nat
    decreases n,
{
    if n == 0 {
        0
    } else {
        base_count_upto(reads, min_qual, rev, k, (n - 1) as nat) + if counted(
            reads,
            n - 1,
            min_qual,
            rev,
        ) && slot_of(nucleotide_of(reads[n - 1].base.unwrap())) == k {
            1nat
        } else {
            0nat
        }
    }
}

/// The length of an insertion (or, with `insertion` false, of a deletion).
pub open spec fn indel_length(e: IndelEvent, insertion: bool) -> Option<u32> {
    match e {
        IndelEvent::Insertion(l) => if insertion {
            Some(l)
        } else {
            None
        },
        IndelEvent::Deletion(l) => if insertion {
            None
        } else {
            Some(l)
        },
        IndelEvent::NoIndel => None,
    }
}

/// The insertion (or deletion) lengths that the representatives among the
/// first `n` alignments report on strand `rev`, in order; base quality plays no part.
pub open spec fn indels_upto(reads: Seq<AlignedRead>, rev: bool, insertion: bool, n: nat) -> Seq<
    u32,
>
    decreases n,
{
    if n == 0 {
        Seq::empty()
    } else {
        let before = indels_upto(reads, rev, insertion, (n - 1) as nat);
        if is_representative(reads, n - 1) && template_reverse(reads[n - 1]) == rev {
            match indel_length(reads[n - 1].indel, insertion) {
                Some(l) => before.push(l),
                None => before,
            }
        } else {
            before
        }
    }
}

/// The sum of the four base counters.
pub open spec fn sum4(c: Seq<usize>) -> int {
    c[0] + c[1] + c[2] + c[3]
}

/// Counts only ever come with depth: on each strand the four base counts add
/// up to at most the depth, and the two depths add up to at most the number of
/// alignments.
pub proof fn lemma_counts_within_depth(reads: Seq<AlignedRead>, min_qual: u8, rev: bool, n: nat)
    ensures
        base_count_upto(reads, min_qual, rev, 0, n) + base_count_upto(reads, min_qual, rev, 1, n)
            + base_count_upto(reads, min_qual, rev, 2, n) + base_count_upto(
            reads,
            min_qual,
            rev,
            3,
            n,
        ) <= depth_upto(reads, min_qual, rev, n),
        depth_upto(reads, min_qual, false, n) + depth_upto(reads, min_qual, true, n) <= n,
    decreases n,
{
    if n > 0 {
        lemma_counts_within_depth(reads, min_qual, rev, (n - 1) as nat);
    }
}

/// The statistics of one strand at one position.
#[derive(Debug)]
pub struct StrandTally {
    pub depth: usize,
    /// Counts of A, C, G, T, in that order.
    pub counts: Vec<usize>,
    pub insertions: Vec<u32>,
    pub deletions: Vec<u32>,
}

impl StrandTally {
    /// Four counters, each at most what the depth allows in sum.
    pub open spec fn wf(&self) -> bool {
        &&& self.counts@.len() == 4
        &&& sum4(self.counts@) <= self.depth
    }

    /// The tally is what the first `n` alignments give on strand `rev`.
    pub open spec fn tallies(
        &self,
        reads: Seq<AlignedRead>,
        min_qual: u8,
        count_indels: bool,
        rev: bool,
        n: nat,
    ) -> bool {
        &&& self.counts@.len() == 4
        &&& self.depth == depth_upto(reads, min_qual, rev, n)
        &&& forall|k: int|
            0 <= k < 4 ==> #[trigger] self.counts@[k] == base_count_upto(
                reads,
                min_qual,
                rev,
                k,
                n,
            )
        &&& self.insertions@ == if count_indels {
            indels_upto(reads, rev, true, n)
        } else {
            Seq::empty()
        }
        &&& self.deletions@ == if count_indels {
            indels_upto(reads, rev, false, n)
        } else {
            Seq::empty()
        }
    }

    /// A tally with nothing counted.
    pub fn new() -> (t: StrandTally)
        ensures
            t.wf(),
            t.depth == 0,
            t.counts@ == seq![0usize, 0, 0, 0],
            t.insertions@.len() == 0,
            t.deletions@.len() == 0,
    {
        StrandTally { depth: 0, counts: vec![0, 0, 0, 0], insertions: Vec::new(), deletions: Vec::new() }
    }
}

/// Everything counted at one position of one sample, by template strand.
#[derive(Debug)]
pub struct PileupColumn {
    pub forward: StrandTally,
    pub reverse: StrandTally,
}

impl PileupColumn {
    /// Each strand's base counts add up to at most its depth, and both depths
    /// together fit a machine word.
    pub open spec fn wf(&self) -> bool {
        &&& self.forward.wf()
        &&& self.reverse.wf()
        &&& self.forward.depth + self.reverse.depth <= usize::MAX
    }

    /// The column is what the alignments `reads` give.
    pub open spec fn describes(&self, reads: Seq<AlignedRead>, min_qual: u8, count_indels: bool) -> bool {
        &&& self.forward.tallies(reads, min_qual, count_indels, false, reads.len())
        &&& self.reverse.tallies(reads, min_qual, count_indels, true, reads.len())
    }

    /// The column of a position that no alignment covers.
    pub fn empty() -> (c: PileupColumn)
        ensures
            c.wf(),
            forall|min_qual: u8, count_indels: bool| #[trigger] c.describes(Seq::empty(), min_qual, count_indels),
    {
        let c = PileupColumn { forward: StrandTally::new(), reverse: StrandTally::new() };
        assert forall|min_qual: u8, count_indels: bool| #[trigger] c.describes(Seq::empty(), min_qual, count_indels) by {
            assert(c.forward.insertions@ =~= Seq::<u32>::empty());
            assert(c.forward.deletions@ =~= Seq::<u32>::empty());
            assert(c.reverse.insertions@ =~= Seq::<u32>::empty());
            assert(c.reverse.deletions@ =~= Seq::<u32>::empty());
        }
        c
    }

    /// Counts one column: each read is represented by one of its alignments,
    /// the representative's base and depth count on its template strand when
    /// its quality reaches `min_qual`, and, with `count_indels`, its insertion
    /// or deletion length is listed on that strand whatever the quality.
    pub fn from_reads(reads: &Vec<AlignedRead>, min_qual: u8, count_indels: bool) -> (c: PileupColumn)
        ensures
            c.wf(),
            c.describes(reads@, min_qual, count_indels),
    {
        let mut fwd = StrandTally::new();
        let mut rev = StrandTally::new();
        proof {
            assert(fwd.insertions@ =~= indels_upto(reads@, false, true, 0));
            assert(fwd.deletions@ =~= indels_upto(reads@, false, false, 0));
            assert(rev.insertions@ =~= indels_upto(reads@, true, true, 0));
            assert(rev.deletions@ =~= indels_upto(reads@, true, false, 0));
        }
        let mut i: usize = 0;
        while i < reads.len()
            invariant
                0 <= i <= reads@.len(),
                fwd.tallies(reads@, min_qual, count_indels, false, i as nat),
                rev.tallies(reads@, min_qual, count_indels, true, i as nat),
            decreases reads@.len() - i,
        {
            proof {
                lemma_counts_within_depth(reads@, min_qual, false, i as nat);
                lemma_counts_within_depth(reads@, min_qual, true, i as nat);
            }
            let r = &reads[i];
            if representative_at(reads, i) {
                let strand = template_strand(r);
                let tally = if strand == Strand::Reverse {
                    &mut rev
                } else {
                    &mut fwd
                };
                let quality_ok = match r.qual {
                    Some(q) => q >= min_qual,
                    None => false,
                };
                match r.base {
                    Some(b) => {
                        if quality_ok {
                            tally.depth = tally.depth + 1;
                            match Nucleotide::from_byte(b).slot() {
                                Some(k) => {
                                    let v = tally.counts[k];
                                    tally.counts.set(k, v + 1);
                                },
                                None => {},
                            }
                        }
                    },
                    None => {},
                }
                if count_indels {
                    match r.indel {
                        IndelEvent::Insertion(l) => tally.insertions.push(l),
                        IndelEvent::Deletion(l) => tally.deletions.push(l),
                        IndelEvent::NoIndel => {},
                    }
                }
            }
            i = i + 1;
        }
        proof {
            lemma_counts_within_depth(reads@, min_qual, false, i as nat);
            lemma_counts_within_depth(reads@, min_qual, true, i as nat);
        }
        PileupColumn { forward: fwd, reverse: rev }
    }
}

/// Two alignments of one read at a position, both showing a base of enough
/// quality, add exactly one to the depth there (on one strand or the other).
pub proof fn lemma_pair_counted_once(reads: Seq<AlignedRead>, min_qual: u8)
    requires
        reads.len() == 2,
        reads[0].qname@ == reads[1].qname@,
        forall|i: int|
            0 <= i < 2 ==> (#[trigger] reads[i]).base.is_some() && match reads[i].qual {
                Some(q) => q >= min_qual,
                None => false,
            },
    ensures
        depth_upto(reads, min_qual, false, 2) + depth_upto(reads, min_qual, true, 2) == 1,
{
    lemma_at_most_one_representative(reads, 0, 1);
    lemma_representative_exists(reads, 0);
    let b = choose|b: int|
        0 <= b < reads.len() && reads[b].qname@ == reads[0].qname@ && #[trigger] is_representative(
            reads,
            b,
        );
    reveal_with_fuel(depth_upto, 3);
    assert(counted(reads, b, min_qual, template_reverse(reads[b])));
}

/// Every column of one sample over the positions `[start, end)` of a chunk,
/// indexed by `position - start`.
#[derive(Debug)]
pub struct SamplePileup {
    pub start: u32,
    pub end: u32,
    pub columns: Vec<PileupColumn>,
}

impl SamplePileup {
    /// One well-formed column per position of the chunk.
    pub open spec fn wf(&self) -> bool {
        &&& self.start <= self.end
        &&& self.columns@.len() == self.end - self.start
        &&& forall|k: int| 0 <= k < self.columns@.len() ==> (#[trigger] self.columns@[k]).wf()
    }

    /// A table over `[start, end)` in which no position is covered yet.
    pub fn new(start: u32, end: u32) -> (t: SamplePileup)
        requires
            start <= end,
        ensures
            t.wf(),
            t.start == start,
            t.end == end,
            forall|k: int, min_qual: u8, count_indels: bool|
                0 <= k < t.columns@.len() ==> #[trigger] t.columns@[k].describes(
                    Seq::empty(),
                    min_qual,
                    count_indels,
                ),
    {
        let n = (end - start) as usize;
        let mut columns: Vec<PileupColumn> = Vec::new();
        while columns.len() < n
            invariant
                n == end - start,
                columns@.len() <= n,
                forall|k: int| 0 <= k < columns@.len() ==> (#[trigger] columns@[k]).wf(),
                forall|k: int, min_qual: u8, count_indels: bool|
                    0 <= k < columns@.len() ==> #[trigger] columns@[k].describes(
                        Seq::empty(),
                        min_qual,
                        count_indels,
                    ),
            decreases n - columns@.len(),
        {
            columns.push(PileupColumn::empty());
        }
        SamplePileup { start, end, columns }
    }

    /// Counts the alignments `reads` of the pileup column at `pos`; a
    /// position outside `[start, end)` is left out and the table is unchanged.
    pub fn add_column(&mut self, pos: u32, reads: &Vec<AlignedRead>, min_qual: u8, count_indels: bool) -> (kept: bool)
        requires
            old(self).wf(),
        ensures
            final(self).wf(),
            final(self).start == old(self).start,
            final(self).end == old(self).end,
            kept == (old(self).start <= pos < old(self).end),
            kept ==> final(self).columns@ == old(self).columns@.update(
                pos - old(self).start,
                final(self).columns@[pos - old(self).start],
            ),
            kept ==> final(self).columns@[pos - old(self).start].describes(
                reads@,
                min_qual,
                count_indels,
            ),
            !kept ==> final(self).columns@ == old(self).columns@,
    {
        if pos < self.start || pos >= self.end {
            return false;
        }
        let column = PileupColumn::from_reads(reads, min_qual, count_indels);
        let k = (pos - self.start) as usize;
        self.columns.set(k, column);
        true
    }
}

/// The columns of every sample over one chunk `[start, end)`; the index of a
/// sample is its place in the sample list.
#[derive(Debug)]
pub struct ChunkPileup {
    pub start: u32,
    pub end: u32,
    pub samples: Vec<SamplePileup>,
}

impl ChunkPileup {
    /// Every sample's table is well formed and spans the chunk.
    pub open spec fn wf(&self) -> bool {
        &&& self.start <= self.end
        &&& forall|s: int|
            0 <= s < self.samples@.len() ==> (#[trigger] self.samples@[s]).wf()
                && self.samples@[s].start == self.start && self.samples@[s].end == self.end
    }

    /// Empty tables for `n_samples` samples over `[start, end)`.
    pub fn new(start: u32, end: u32, n_samples: usize) -> (c: ChunkPileup)
        requires
            start <= end,
        ensures
            c.wf(),
            c.start == start,
            c.end == end,
            c.samples@.len() == n_samples,
            forall|s: int, k: int, min_qual: u8, count_indels: bool|
                0 <= s < n_samples && 0 <= k < end - start ==> #[trigger] c.samples@[s].columns@[k].describes(
                    Seq::empty(),
                    min_qual,
                    count_indels,
                ),
    {
        let mut samples: Vec<SamplePileup> = Vec::new();
        while samples.len() < n_samples
            invariant
                start <= end,
                samples@.len() <= n_samples,
                forall|s: int|
                    0 <= s < samples@.len() ==> (#[trigger] samples@[s]).wf() && samples@[s].start
                        == start && samples@[s].end == end,
                forall|s: int, k: int, min_qual: u8, count_indels: bool|
                    0 <= s < samples@.len() && 0 <= k < end - start ==> #[trigger] samples@[s].columns@[k].describes(
                        Seq::empty(),
                        min_qual,
                        count_indels,
                    ),
            decreases n_samples - samples@.len(),
        {
            samples.push(SamplePileup::new(start, end));
        }
        ChunkPileup { start, end, samples }
    }

    /// Counts the pileup column at `pos` of sample `sample` from its
    /// alignments `reads`; a position outside the chunk is left out.
    pub fn add_column(
        &mut self,
        sample: usize,
        pos: u32,
        reads: &Vec<AlignedRead>,
        min_qual: u8,
        count_indels: bool,
    ) -> (kept: bool)
        requires
            old(self).wf(),
            sample < old(self).samples@.len(),
        ensures
            final(self).wf(),
            final(self).start == old(self).start,
            final(self).end == old(self).end,
            final(self).samples@.len() == old(self).samples@.len(),
            forall|s: int|
                0 <= s < old(self).samples@.len() && s != sample ==> #[trigger] final(self).samples@[s]
                    == old(self).samples@[s],
            kept == (old(self).start <= pos < old(self).end),
            kept ==> final(self).samples@[sample as int].columns@ == old(
                self,
            ).samples@[sample as int].columns@.update(
                pos - old(self).start,
                final(self).samples@[sample as int].columns@[pos - old(self).start],
            ),
            kept ==> final(self).samples@[sample as int].columns@[pos - old(
                self,
            ).start].describes(reads@, min_qual, count_indels),
            !kept ==> final(self).samples@[sample as int].columns@ == old(
                self,
            ).samples@[sample as int].columns@,
    {
        let mut table = self.samples.remove(sample);
        let kept = table.add_column(pos, reads, min_qual, count_indels);
        self.samples.insert(sample, table);
        proof {
            assert forall|s: int|
                0 <= s < old(self).samples@.len() && s != sample implies #[trigger] self.samples@[s]
                == old(self).samples@[s] by {}
        }
        kept
    }
}

} // verus!
