use crate::pileup::same_name;
use vstd::prelude::*;

verus! {

/// A chromosome could not be resolved for every sample.
#[derive(Clone, Copy, Debug, PartialEq, Eq, Structural)]
pub enum ResolveError {
    /// The sample at this index has no reference sequence of that name.
    UnknownChromosome { sample: usize },
}

/// The reference names of one sample, as values.
pub open spec fn names_of(dict: Seq<Vec<u8>>) -> Seq<Seq<u8>> {
    dict.map_values(|x: Vec<u8>| x@)
}

/// `i` is the first index at which `dict` holds `name`.
pub open spec fn first_index_of(dict: Seq<Seq<u8>>, name: Seq<u8>, i: int) -> bool {
    &&& 0 <= i < dict.len()
    &&& dict[i] == name
    &&& forall|j: int| 0 <= j < i ==> #[trigger] dict[j] != name
}

/// Looks `name` up in one sample's reference-name dictionary.
pub fn find_name(dict: &Vec<Vec<u8>>, name: &Vec<u8>) -> (r: Option<usize>)
    ensures
        match r {
            Some(i) => first_index_of(names_of(dict@), name@, i as int),
            None => !names_of(dict@).contains(name@),
        },
{
    let mut i: usize = 0;
    while i < dict.len()
        invariant
            0 <= i <= dict@.len(),
            forall|j: int| 0 <= j < i ==> #[trigger] names_of(dict@)[j] != name@,
        decreases dict@.len() - i,
    {
        if same_name(&dict[i], name) {
            return Some(i);
        }
        i = i + 1;
    }
    proof {
        if names_of(dict@).contains(name@) {
            let j = choose|j: int| 0 <= j < names_of(dict@).len() && names_of(dict@)[j] == name@;
            assert(names_of(dict@)[j] != name@);
        }
    }
    None
}

/// Maps a chromosome name to its numeric id in each sample: the id is the
/// index of the name in that sample's dictionary, found independently per
/// sample. Fails on the first sample that lacks the name.
pub fn resolve_chromosome(name: &Vec<u8>, dictionaries: &Vec<Vec<Vec<u8>>>) -> (r: Result<
    Vec<usize>,
    ResolveError,
>)
    ensures
        match r {
            Ok(ids) => ids@.len() == dictionaries@.len() && forall|s: int|
                0 <= s < ids@.len() ==> first_index_of(
                    names_of(dictionaries@[s]@),
                    name@,
                    #[trigger] ids@[s] as int,
                ),
            Err(ResolveError::UnknownChromosome { sample }) => sample < dictionaries@.len()
                && !names_of(dictionaries@[sample as int]@).contains(name@) && forall|s: int|
                0 <= s < sample ==> #[trigger] names_of(dictionaries@[s]@).contains(name@),
        },
        r.is_ok() <==> forall|s: int|
            0 <= s < dictionaries@.len() ==> #[trigger] names_of(dictionaries@[s]@).contains(name@),
{
    let mut ids: Vec<usize> = Vec::new();
    let mut s: usize = 0;
    while s < dictionaries.len()
        invariant
            0 <= s <= dictionaries@.len(),
            ids@.len() == s,
            forall|t: int|
                0 <= t < s ==> first_index_of(
                    names_of(dictionaries@[t]@),
                    name@,
                    #[trigger] ids@[t] as int,
                ),
        decreases dictionaries@.len() - s,
    {
        match find_name(&dictionaries[s], name) {
            Some(i) => ids.push(i),
            None => {
                proof {
                    assert forall|t: int| 0 <= t < s implies #[trigger] names_of(
                        dictionaries@[t]@,
                    ).contains(name@) by {
                        assert(first_index_of(names_of(dictionaries@[t]@), name@, ids@[t] as int));
                    }
                }
                return Err(ResolveError::UnknownChromosome { sample: s });
            },
        }
        s = s + 1;
    }
    proof {
        assert forall|t: int| 0 <= t < dictionaries@.len() implies #[trigger] names_of(
            dictionaries@[t]@,
        ).contains(name@) by {
            assert(first_index_of(names_of(dictionaries@[t]@), name@, ids@[t] as int));
        }
    }
    Ok(ids)
}

} // verus!
