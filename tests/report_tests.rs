use pileup_stats::pileup::{AlignedRead, ChunkPileup, IndelEvent};
use pileup_stats::report::{
    format_chunk, header_line, passes_depth_filter, sample_field, select_rows, Marker,
    StrandMode, StrandView,
};

fn fwd_read(name: &str, base: u8) -> AlignedRead {
    AlignedRead {
        qname: name.as_bytes().to_vec(),
        mapq: 60,
        reverse: false,
        first_in_pair: true,
        second_in_pair: false,
        base: Some(base),
        qual: Some(30),
        indel: IndelEvent::NoIndel,
    }
}

fn rev_read(name: &str, base: u8) -> AlignedRead {
    let mut r = fwd_read(name, base);
    r.reverse = true;
    r
}

fn text(bytes: Vec<u8>) -> String {
    String::from_utf8(bytes).unwrap()
}

#[test]
fn single_read_merged_rows() {
    let mut chunk = ChunkPileup::new(10, 13, 1);
    for p in 10..13 {
        assert!(chunk.add_column(0, p, &vec![fwd_read("r", b'A')], 0, false));
    }
    let out = format_chunk(&b"chr1".to_vec(), &chunk, &b"AAA".to_vec(), StrandMode::Merged, 1, 0, false);
    assert_eq!(
        text(out),
        "chr1\t11\t.\tA\t1,0,0,0\nchr1\t12\t.\tA\t1,0,0,0\nchr1\t13\t.\tA\t1,0,0,0\n"
    );
}

#[test]
fn forward_insertion_in_forward_slot() {
    let mut r = fwd_read("r", b'C');
    r.indel = IndelEvent::Insertion(2);
    let mut chunk = ChunkPileup::new(5, 6, 1);
    assert!(chunk.add_column(0, 5, &vec![r], 0, true));
    let out = format_chunk(&b"c".to_vec(), &chunk, &b"C".to_vec(), StrandMode::Split, 0, 0, true);
    assert_eq!(text(out), "c\t6\t+\tC\t0,1,0,0,2,\nc\t6\t-\tG\t0,0,0,0,,\n");
    let merged = format_chunk(&b"c".to_vec(), &chunk, &b"C".to_vec(), StrandMode::Merged, 0, 0, true);
    assert_eq!(text(merged), "c\t6\t.\tC\t0,1,0,0,2,\n");
}

#[test]
fn mean_depth_suppresses_low_total() {
    let mut chunk = ChunkPileup::new(0, 1, 2);
    let a: Vec<AlignedRead> = (0..3).map(|i| fwd_read(&format!("a{}", i), b'A')).collect();
    let b = vec![fwd_read("b0", b'A')];
    chunk.add_column(0, 0, &a, 0, false);
    chunk.add_column(1, 0, &b, 0, false);
    assert!(select_rows(&chunk, &b"A".to_vec(), StrandMode::Merged, 0, 5, false).is_empty());
    assert!(!passes_depth_filter(&vec![3, 1], 0, 5));
    assert!(!passes_depth_filter(&vec![3, 3], 0, 5));
    assert!(passes_depth_filter(&vec![3, 3], 0, 3));
    assert!(!passes_depth_filter(&vec![3, 3], 0, 4));
}

#[test]
fn min_depth_uses_best_sample() {
    assert!(passes_depth_filter(&vec![0, 4], 4, 0));
    assert!(!passes_depth_filter(&vec![3, 3], 4, 0));
    assert!(passes_depth_filter(&vec![], 0, 7));
    assert!(!passes_depth_filter(&vec![], 1, 0));
    assert!(passes_depth_filter(&vec![u64::MAX, u64::MAX], 0, u32::MAX));
}

#[test]
fn raising_min_depth_drops_rows() {
    let mut chunk = ChunkPileup::new(0, 3, 1);
    chunk.add_column(0, 0, &vec![fwd_read("a", b'A')], 0, false);
    chunk.add_column(0, 1, &vec![fwd_read("a", b'A'), fwd_read("b", b'C')], 0, false);
    let reference = b"AAA".to_vec();
    let counts: Vec<usize> = (0..4)
        .map(|d| select_rows(&chunk, &reference, StrandMode::TaggedCombined, d, 0, false).len())
        .collect();
    assert_eq!(counts, vec![3, 2, 1, 0]);
}

#[test]
fn split_rows_complement_reverse() {
    let mut chunk = ChunkPileup::new(0, 1, 1);
    chunk.add_column(0, 0, &vec![fwd_read("a", b'A'), rev_read("b", b'G'), rev_read("c", b'T')], 0, false);
    let rows = select_rows(&chunk, &b"A".to_vec(), StrandMode::Split, 2, 0, false);
    assert_eq!(rows.len(), 1);
    assert_eq!(rows[0].marker, Marker::Reverse);
    assert_eq!(rows[0].reference, b'T');
    assert_eq!(rows[0].fields, vec![b"1,1,0,0".to_vec()]);
    let all = format_chunk(&b"x".to_vec(), &chunk, &b"A".to_vec(), StrandMode::Split, 0, 0, false);
    assert_eq!(text(all), "x\t1\t+\tA\t1,0,0,0\nx\t1\t-\tT\t1,1,0,0\n");
}

#[test]
fn tagged_combined_adds_strands() {
    let mut chunk = ChunkPileup::new(0, 1, 2);
    chunk.add_column(0, 0, &vec![fwd_read("a", b'A'), rev_read("b", b'A')], 0, true);
    let out = format_chunk(&b"x".to_vec(), &chunk, &b"N".to_vec(), StrandMode::TaggedCombined, 0, 0, true);
    assert_eq!(text(out), "x\t1\t+/-\tN\t2,0,0,0,,\t0,0,0,0,,\n");
}

#[test]
fn reference_shorter_than_chunk() {
    let chunk = ChunkPileup::new(0, 5, 1);
    let rows = select_rows(&chunk, &b"AC".to_vec(), StrandMode::Merged, 0, 0, false);
    assert_eq!(rows.len(), 2);
    assert_eq!(rows[1].position, 2);
    assert_eq!(rows[1].reference, b'C');
}

#[test]
fn field_lists_indels_of_both_strands() {
    let mut chunk = ChunkPileup::new(0, 1, 1);
    let mut a = fwd_read("a", b'A');
    a.indel = IndelEvent::Insertion(12);
    let mut b = rev_read("b", b'A');
    b.indel = IndelEvent::Insertion(3);
    let mut c = fwd_read("c", b'A');
    c.indel = IndelEvent::Deletion(7);
    let mut d = fwd_read("d", b'A');
    d.indel = IndelEvent::Insertion(100);
    chunk.add_column(0, 0, &vec![a, b, c, d], 0, true);
    let col = &chunk.samples[0].columns[0];
    assert_eq!(text(sample_field(col, StrandView::Combined, true)), "4,0,0,0,12|100|3,7");
    assert_eq!(text(sample_field(col, StrandView::ForwardOnly, true)), "3,0,0,0,12|100,7");
    assert_eq!(text(sample_field(col, StrandView::ReverseOnly, true)), "0,0,0,1,3,");
    assert_eq!(text(sample_field(col, StrandView::Combined, false)), "4,0,0,0");
}

#[test]
fn many_reads_give_multi_digit_counts() {
    let mut chunk = ChunkPileup::new(0, 1, 1);
    let reads: Vec<AlignedRead> = (0..1234).map(|i| fwd_read(&format!("r{}", i), b'T')).collect();
    chunk.add_column(0, 0, &reads, 0, false);
    let out = format_chunk(&b"c".to_vec(), &chunk, &b"T".to_vec(), StrandMode::Merged, 0, 0, false);
    assert_eq!(text(out), "c\t1\t.\tT\t0,0,0,1234\n");
}

#[test]
fn header_names_each_sample() {
    let names = vec![b"a.bam".to_vec(), b"b.bam".to_vec()];
    assert_eq!(text(header_line(&names)), "Chrom\tPos\tStrand\tRef\ta.bam\tb.bam\n");
    assert_eq!(text(header_line(&vec![])), "Chrom\tPos\tStrand\tRef\n");
}
