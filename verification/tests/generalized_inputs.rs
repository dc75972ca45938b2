//! Generalizing byte inputs into runs and gaps, and flattening them back.

use gasan::generalized::{GeneralizedInputMetadata, GeneralizedItem};

#[test]
fn from_options_brackets_with_gaps() {
    let v = vec![Some(1u8), Some(2), None, Some(3)];
    let g = GeneralizedInputMetadata::generalized_from_options(&v);
    let items = g.generalized();
    assert_eq!(
        items,
        &vec![
            GeneralizedItem::Gap,
            GeneralizedItem::Bytes(vec![1, 2]),
            GeneralizedItem::Gap,
            GeneralizedItem::Bytes(vec![3]),
            GeneralizedItem::Gap,
        ]
    );
}

#[test]
fn from_options_leading_gap_not_duplicated() {
    let v = vec![None, Some(7u8), None];
    let g = GeneralizedInputMetadata::generalized_from_options(&v);
    assert_eq!(
        g.generalized(),
        &vec![
            GeneralizedItem::Gap,
            GeneralizedItem::Bytes(vec![7]),
            GeneralizedItem::Gap,
        ]
    );
}

#[test]
fn from_options_empty_input_is_one_gap() {
    let v: Vec<Option<u8>> = vec![];
    let g = GeneralizedInputMetadata::generalized_from_options(&v);
    assert_eq!(g.generalized(), &vec![GeneralizedItem::Gap]);
}

#[test]
fn from_options_adjacent_gaps_are_kept() {
    let v = vec![None, None];
    let g = GeneralizedInputMetadata::generalized_from_options(&v);
    assert_eq!(g.generalized(), &vec![GeneralizedItem::Gap, GeneralizedItem::Gap]);
}

#[test]
fn generalized_len_counts_gaps_as_one() {
    let v = vec![Some(1u8), Some(2), None, Some(3)];
    let g = GeneralizedInputMetadata::generalized_from_options(&v);
    // [Gap, Bytes([1,2]), Gap, Bytes([3]), Gap] = 1 + 2 + 1 + 1 + 1
    assert_eq!(g.generalized_len(), 6);
}

#[test]
fn generalized_to_bytes_flattens_runs() {
    let v = vec![Some(1u8), Some(2), None, Some(3), None];
    let g = GeneralizedInputMetadata::generalized_from_options(&v);
    assert_eq!(g.generalized_to_bytes(), vec![1, 2, 3]);
}

#[test]
fn generalized_mut_allows_edits() {
    let v = vec![Some(1u8), None];
    let mut g = GeneralizedInputMetadata::generalized_from_options(&v);
    g.generalized_mut().push(GeneralizedItem::Bytes(vec![9]));
    assert_eq!(g.generalized_to_bytes(), vec![1, 9]);
    assert_eq!(g.generalized_len(), 4);
}
