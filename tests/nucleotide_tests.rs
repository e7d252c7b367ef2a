use pileup_stats::nucleotide::{complement_base_code, Nucleotide};

#[test]
fn complement_swaps_pairs() {
    assert_eq!(complement_base_code(b'A'), b'T');
    assert_eq!(complement_base_code(b'T'), b'A');
    assert_eq!(complement_base_code(b'C'), b'G');
    assert_eq!(complement_base_code(b'G'), b'C');
}

#[test]
fn complement_twice_is_identity() {
    for b in [b'A', b'C', b'G', b'T'] {
        assert_eq!(complement_base_code(complement_base_code(b)), b);
    }
}

#[test]
fn complement_of_other_symbols_is_n() {
    for b in [b'N', b'a', b'u', b'U', b'-', 0u8, 255u8] {
        assert_eq!(complement_base_code(b), b'N');
    }
}

#[test]
fn nucleotide_slots() {
    assert_eq!(Nucleotide::from_byte(b'A').slot(), Some(0));
    assert_eq!(Nucleotide::from_byte(b'C').slot(), Some(1));
    assert_eq!(Nucleotide::from_byte(b'G').slot(), Some(2));
    assert_eq!(Nucleotide::from_byte(b'T').slot(), Some(3));
    assert_eq!(Nucleotide::from_byte(b'N'), Nucleotide::Other);
    assert_eq!(Nucleotide::from_byte(b'N').slot(), None);
}
