use pileup_stats::refcount::{tally_against_reference, ReferenceTally};

#[test]
fn tally_splits_column() {
    let bases = vec![Some(b'A'), Some(b'a'), Some(b'C'), None, Some(b'N')];
    assert_eq!(
        tally_against_reference(Some(b'A'), &bases),
        ReferenceTally { ref_count: 2, alt_count: 2, gap_count: 1 }
    );
}

#[test]
fn tally_without_reference_base() {
    let bases = vec![Some(b'A'), None];
    assert_eq!(
        tally_against_reference(None, &bases),
        ReferenceTally { ref_count: 0, alt_count: 1, gap_count: 1 }
    );
    assert_eq!(
        tally_against_reference(Some(b'G'), &vec![]),
        ReferenceTally { ref_count: 0, alt_count: 0, gap_count: 0 }
    );
}
