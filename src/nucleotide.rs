use vstd::prelude::*;

verus! {

/// The byte code of `N`, written for any symbol without a complement.
pub const UNKNOWN_BASE: u8 = 78;

/// A nucleotide as read from an alignment or a reference sequence.
#[derive(Clone, Copy, Debug, PartialEq, Eq, Structural)]
pub enum Nucleotide {
    A,
    C,
    G,
    T,
    Other,
}

/// The nucleotide that an upper-case byte code stands for.
pub open spec fn nucleotide_of(b: u8) -> Nucleotide {
    if b == 65 {
        Nucleotide::A
    } else if b == 67 {
        Nucleotide::C
    } else if b == 71 {
        Nucleotide::G
    } else if b == 84 {
        Nucleotide::T
    } else {
        Nucleotide::Other
    }
}

/// Whether `b` is one of the codes of `A`, `C`, `G`, `T`.
pub open spec fn is_acgt(b: u8) -> bool {
    nucleotide_of(b) != Nucleotide::Other
}

/// The counter slot of a nucleotide, in the order A, C, G, T.
pub open spec fn slot_of(n: Nucleotide) -> int {
    match n {
        Nucleotide::A => 0,
        Nucleotide::C => 1,
        Nucleotide::G => 2,
        Nucleotide::T => 3,
        Nucleotide::Other => 4,
    }
}

/// The complement of a base code: A and T swap, C and G swap, anything else is `N`.
pub open spec fn complement_of(b: u8) -> u8 {
    if b == 65 {
        84
    } else if b == 84 {
        65
    } else if b == 67 {
        71
    } else if b == 71 {
        67
    } else {
        UNKNOWN_BASE
    }
}

impl Nucleotide {
    /// Reads a byte code; only the upper-case codes of A, C, G, T name a nucleotide.
    pub fn from_byte(b: u8) -> (n: Nucleotide)
        ensures
            n == nucleotide_of(b),
    {
        if b == 65 {
            Nucleotide::A
        } else if b == 67 {
            Nucleotide::C
        } else if b == 71 {
            Nucleotide::G
        } else if b == 84 {
            Nucleotide::T
        } else {
            Nucleotide::Other
        }
    }

    /// The counter slot (0 to 3) of A, C, G, T; `None` for any other symbol.
    pub fn slot(self) -> (r: Option<usize>)
        ensures
            self == Nucleotide::Other ==> r.is_none(),
            self != Nucleotide::Other ==> r == Some(slot_of(self) as usize),
    {
        match self {
            Nucleotide::A => Some(0),
            Nucleotide::C => Some(1),
            Nucleotide::G => Some(2),
            Nucleotide::T => Some(3),
            Nucleotide::Other => None,
        }
    }
}

/// The complement of a base code, as reported for a reverse-strand reference base.
pub fn complement_base_code(c: u8) -> (r: u8)
    ensures
        r == complement_of(c),
{
    if c == 65 {
        84
    } else if c == 84 {
        65
    } else if c == 67 {
        71
    } else if c == 71 {
        67
    } else {
        UNKNOWN_BASE
    }
}

/// Complementing twice gives back each of A, C, G, T; any other symbol
/// complements to `N`.
pub proof fn lemma_complement_involution(b: u8)
    ensures
        is_acgt(b) ==> complement_of(complement_of(b)) == b,
        is_acgt(b) ==> is_acgt(complement_of(b)),
        !is_acgt(b) ==> complement_of(b) == UNKNOWN_BASE,
{
}

} // verus!
