use vstd::prelude::*;

verus! {

/// How the alignments of one pileup column compare with the reference base.
#[derive(Clone, Copy, Debug, PartialEq, Eq, Structural)]
pub struct ReferenceTally {
    /// Alignments whose base, upper-cased, is the reference base.
    pub ref_count: usize,
    /// Alignments with any other base.
    pub alt_count: usize,
    /// Alignments with a deletion or reference skip at the position.
    pub gap_count: usize,
}

/// ASCII upper case of a byte.
pub open spec fn ascii_upper(b: u8) -> u8 {
    if 97 <= b <= 122 {
        (b - 32) as u8
    } else {
        b
    }
}

/// The alignment shows a base equal to the reference base.
pub open spec fn matches_reference(reference: Option<u8>, base: Option<u8>) -> bool {
    match (reference, base) {
        (Some(r), Some(b)) => ascii_upper(b) == r,
        _ => false,
    }
}

/// How many of the first `n` bases satisfy `pick`: 0 gaps, 1 reference matches,
/// 2 other bases.
pub open spec fn tally_upto(reference: Option<u8>, bases: Seq<Option<u8>>, pick: int, n: nat) -> nat
    decreases n,
{
    if n == 0 {
        0
    } else {
        let b = bases[n - 1];
        let kind = if b.is_none() {
            0int
        } else if matches_reference(reference, b) {
            1int
        } else {
            2int
        };
        tally_upto(reference, bases, pick, (n - 1) as nat) + if kind == pick {
            1nat
        } else {
            0nat
        }
    }
}

proof fn lemma_tally_total(reference: Option<u8>, bases: Seq<Option<u8>>, n: nat)
    ensures
        tally_upto(reference, bases, 0, n) + tally_upto(reference, bases, 1, n) + tally_upto(
            reference,
            bases,
            2,
            n,
        ) == n,
    decreases n,
{
    if n > 0 {
        lemma_tally_total(reference, bases, (n - 1) as nat);
    }
}

fn upper(b: u8) -> (r: u8)
    ensures
        r == ascii_upper(b),
{
    if 97 <= b && b <= 122 {
        b - 32
    } else {
        b
    }
}

/// Compares every alignment of a column with the reference base (`None` where
/// the reference has no base there, so that every base differs).
pub fn tally_against_reference(reference: Option<u8>, bases: &Vec<Option<u8>>) -> (t: ReferenceTally)
    ensures
        t.gap_count == tally_upto(reference, bases@, 0, bases@.len()),
        t.ref_count == tally_upto(reference, bases@, 1, bases@.len()),
        t.alt_count == tally_upto(reference, bases@, 2, bases@.len()),
        t.gap_count + t.ref_count + t.alt_count == bases@.len(),
{
    let mut t = ReferenceTally { ref_count: 0, alt_count: 0, gap_count: 0 };
    let mut i: usize = 0;
    while i < bases.len()
        invariant
            0 <= i <= bases@.len(),
            t.gap_count == tally_upto(reference, bases@, 0, i as nat),
            t.ref_count == tally_upto(reference, bases@, 1, i as nat),
            t.alt_count == tally_upto(reference, bases@, 2, i as nat),
        decreases bases@.len() - i,
    {
        proof {
            lemma_tally_total(reference, bases@, i as nat);
        }
        match bases[i] {
            None => t.gap_count = t.gap_count + 1,
            Some(b) => {
                let same = match reference {
                    Some(r) => upper(b) == r,
                    None => false,
                };
                if same {
                    t.ref_count = t.ref_count + 1;
                } else {
                    t.alt_count = t.alt_count + 1;
                }
            },
        }
        i = i + 1;
    }
    proof {
        lemma_tally_total(reference, bases@, i as nat);
    }
    t
}

} // verus!
