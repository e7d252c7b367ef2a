use pileup_stats::pileup::{
    representative_at, template_strand, AlignedRead, ChunkPileup, IndelEvent, PileupColumn,
    SamplePileup, Strand,
};

fn read(name: &str, mapq: u8, reverse: bool, first: bool, base: u8, qual: u8) -> AlignedRead {
    AlignedRead {
        qname: name.as_bytes().to_vec(),
        mapq,
        reverse,
        first_in_pair: first,
        second_in_pair: !first,
        base: Some(base),
        qual: Some(qual),
        indel: IndelEvent::NoIndel,
    }
}

#[test]
fn strand_of_mates() {
    let r1 = read("q", 60, true, true, b'A', 30);
    let r2 = read("q", 60, true, false, b'A', 30);
    assert_eq!(template_strand(&r1), Strand::Reverse);
    assert_eq!(template_strand(&r2), Strand::Forward);
    let f1 = read("q", 60, false, true, b'A', 30);
    let f2 = read("q", 60, false, false, b'A', 30);
    assert_eq!(template_strand(&f1), Strand::Forward);
    assert_eq!(template_strand(&f2), Strand::Reverse);
}

#[test]
fn higher_mapq_represents_read() {
    let reads = vec![read("q", 10, false, true, b'A', 30), read("q", 20, false, false, b'C', 30)];
    assert!(!representative_at(&reads, 0));
    assert!(representative_at(&reads, 1));
}

#[test]
fn first_in_pair_wins_tie() {
    let reads = vec![read("q", 20, false, false, b'C', 30), read("q", 20, false, true, b'A', 30)];
    assert!(!representative_at(&reads, 0));
    assert!(representative_at(&reads, 1));
}

#[test]
fn mates_counted_once() {
    let reads = vec![read("q", 20, false, true, b'A', 30), read("q", 20, true, false, b'A', 30)];
    let col = PileupColumn::from_reads(&reads, 0, false);
    assert_eq!(col.forward.depth + col.reverse.depth, 1);
    assert_eq!(col.forward.counts, vec![1, 0, 0, 0]);
}

#[test]
fn different_reads_both_count() {
    let reads = vec![read("q1", 20, false, true, b'A', 30), read("q2", 20, true, true, b'G', 30)];
    let col = PileupColumn::from_reads(&reads, 0, false);
    assert_eq!(col.forward.depth, 1);
    assert_eq!(col.reverse.depth, 1);
    assert_eq!(col.forward.counts, vec![1, 0, 0, 0]);
    assert_eq!(col.reverse.counts, vec![0, 0, 1, 0]);
}

#[test]
fn quality_filter_and_other_bases() {
    let mut low = read("a", 20, false, true, b'A', 5);
    low.indel = IndelEvent::Insertion(3);
    let mut missing = read("b", 20, false, true, b'C', 40);
    missing.qual = None;
    let n_base = read("c", 20, false, true, b'N', 40);
    let reads = vec![low, missing, n_base];
    let col = PileupColumn::from_reads(&reads, 10, true);
    assert_eq!(col.forward.depth, 1);
    assert_eq!(col.forward.counts, vec![0, 0, 0, 0]);
    assert_eq!(col.forward.insertions, vec![3]);
    let sum: usize = col.forward.counts.iter().sum();
    assert!(sum <= col.forward.depth);
}

#[test]
fn deletion_adds_no_depth() {
    let mut del = read("a", 20, true, true, b'A', 40);
    del.base = None;
    del.indel = IndelEvent::Deletion(4);
    let col = PileupColumn::from_reads(&vec![del], 0, true);
    assert_eq!(col.reverse.depth, 0);
    assert_eq!(col.reverse.deletions, vec![4]);
    assert!(col.forward.deletions.is_empty());
    let uncounted = PileupColumn::from_reads(&vec![read("a", 20, true, true, b'A', 40)], 0, false);
    assert!(uncounted.reverse.deletions.is_empty());
}

#[test]
fn indels_only_listed_when_asked() {
    let mut r = read("a", 20, false, true, b'A', 40);
    r.indel = IndelEvent::Insertion(2);
    let col = PileupColumn::from_reads(&vec![r], 0, false);
    assert!(col.forward.insertions.is_empty());
    assert_eq!(col.forward.depth, 1);
}

#[test]
fn columns_outside_chunk_are_dropped() {
    let mut t = SamplePileup::new(10, 13);
    assert_eq!(t.columns.len(), 3);
    assert!(!t.add_column(9, &vec![read("a", 1, false, true, b'A', 1)], 0, false));
    assert!(!t.add_column(13, &vec![read("a", 1, false, true, b'A', 1)], 0, false));
    assert!(t.add_column(12, &vec![read("a", 1, false, true, b'A', 1)], 0, false));
    assert_eq!(t.columns[2].forward.depth, 1);
    assert_eq!(t.columns[0].forward.depth, 0);
}

#[test]
fn chunk_table_per_sample() {
    let mut c = ChunkPileup::new(0, 2, 2);
    assert!(c.add_column(1, 1, &vec![read("a", 1, true, true, b'T', 1)], 0, false));
    assert_eq!(c.samples[1].columns[1].reverse.counts, vec![0, 0, 0, 1]);
    assert_eq!(c.samples[0].columns[1].reverse.depth, 0);
}
