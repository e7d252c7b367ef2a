use pileup_stats::region::{plan, split_interval, TargetInterval};

#[test]
fn split_with_remainder() {
    assert_eq!(split_interval(10, 20, 4), vec![(10, 14), (14, 18), (18, 20)]);
}

#[test]
fn split_exact_multiple() {
    assert_eq!(split_interval(0, 8, 4), vec![(0, 4), (4, 8)]);
}

#[test]
fn split_shorter_than_chunk() {
    assert_eq!(split_interval(5, 7, 8), vec![(5, 7)]);
}

#[test]
fn split_empty_interval() {
    assert_eq!(split_interval(9, 9, 8), vec![(9, 9)]);
}

#[test]
fn split_reaches_top_of_range() {
    assert_eq!(
        split_interval(u32::MAX - 5, u32::MAX, 4),
        vec![(u32::MAX - 5, u32::MAX - 1), (u32::MAX - 1, u32::MAX)]
    );
}

#[test]
fn split_covers_every_position_once() {
    for size in 1..12u32 {
        for len in 0..30u32 {
            let chunks = split_interval(100, 100 + len, size);
            let mut seen = Vec::new();
            for (s, e) in &chunks {
                assert!(e - s <= size);
                for p in *s..*e {
                    seen.push(p);
                }
            }
            let expected: Vec<u32> = (100..100 + len).collect();
            assert_eq!(seen, expected);
        }
    }
}

#[test]
fn plan_keeps_interval_order() {
    let intervals = vec![
        TargetInterval { chrom: "chr2".to_string(), start: 0, end: 5 },
        TargetInterval { chrom: "chr1".to_string(), start: 7, end: 9 },
    ];
    let chunks = plan(&intervals, 3);
    let got: Vec<(String, u32, u32)> =
        chunks.iter().map(|c| (c.chrom.clone(), c.start, c.end)).collect();
    assert_eq!(
        got,
        vec![
            ("chr2".to_string(), 0, 3),
            ("chr2".to_string(), 3, 5),
            ("chr1".to_string(), 7, 9),
        ]
    );
}
