use pileup_stats::resolve::{find_name, resolve_chromosome, ResolveError};

fn dict(names: &[&str]) -> Vec<Vec<u8>> {
    names.iter().map(|n| n.as_bytes().to_vec()).collect()
}

#[test]
fn resolves_per_sample_order() {
    let dicts = vec![dict(&["chr1", "chr2", "chrX"]), dict(&["chrX", "chr2"])];
    assert_eq!(resolve_chromosome(&b"chr2".to_vec(), &dicts), Ok(vec![1, 1]));
    assert_eq!(resolve_chromosome(&b"chrX".to_vec(), &dicts), Ok(vec![2, 0]));
}

#[test]
fn unknown_chromosome_names_the_sample() {
    let dicts = vec![dict(&["chr1", "chr2"]), dict(&["chr2"]), dict(&[])];
    assert_eq!(
        resolve_chromosome(&b"chr1".to_vec(), &dicts),
        Err(ResolveError::UnknownChromosome { sample: 1 })
    );
}

#[test]
fn first_of_duplicate_names() {
    assert_eq!(find_name(&dict(&["a", "b", "a"]), &b"a".to_vec()), Some(0));
    assert_eq!(find_name(&dict(&["a", "b"]), &b"ab".to_vec()), None);
}
