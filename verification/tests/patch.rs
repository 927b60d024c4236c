use c2pa_pdf::error::Error;
use c2pa_pdf::patch::{find_sole_occurrence, matches_at, patch_bytes};

#[test]
fn matches_at_compares_the_run_at_the_index() {
    let buffer = [1u8, 2, 3, 2, 3];
    assert!(matches_at(&buffer, &[2, 3], 1));
    assert!(matches_at(&buffer, &[2, 3], 3));
    assert!(!matches_at(&buffer, &[2, 3], 0));
    assert!(!matches_at(&buffer, &[2, 3], 2));
    assert!(matches_at(&buffer, &[], 5));
    assert!(!matches_at(&buffer, &[], 6));
    assert!(!matches_at(&buffer, &[3, 0], 4));
    assert!(!matches_at(&buffer, &[1], usize::MAX));
}

#[test]
fn find_sole_occurrence_wants_exactly_one() {
    assert_eq!(find_sole_occurrence(&[1, 2, 3, 4], &[3, 4]), Some(2));
    assert_eq!(find_sole_occurrence(&[1, 2, 3, 4], &[1]), Some(0));
    assert_eq!(find_sole_occurrence(&[1, 2, 3, 4], &[1, 2, 3, 4]), Some(0));
    assert_eq!(find_sole_occurrence(&[1, 2, 3, 4], &[5]), None);
    assert_eq!(find_sole_occurrence(&[1, 2, 1, 2], &[1, 2]), None);
    assert_eq!(find_sole_occurrence(&[1, 1, 1], &[1, 1]), None);
    assert_eq!(find_sole_occurrence(&[1, 2], &[1, 2, 3]), None);
}

#[test]
fn find_sole_occurrence_of_nothing() {
    assert_eq!(find_sole_occurrence(&[], &[]), Some(0));
    assert_eq!(find_sole_occurrence(&[1], &[]), None);
}

#[test]
fn patch_replaces_the_single_occurrence() {
    let mut data = vec![1u8, 2, 3, 4, 5];
    assert_eq!(patch_bytes(&mut data, &[2, 3], &[9, 8]), Ok(()));
    assert_eq!(data, vec![1, 9, 8, 4, 5]);
}

#[test]
fn patch_with_a_longer_or_shorter_replacement() {
    let mut data = vec![1u8, 2, 3, 4, 5];
    assert_eq!(patch_bytes(&mut data, &[2, 3], &[7, 7, 7]), Ok(()));
    assert_eq!(data, vec![1, 7, 7, 7, 4, 5]);
    assert_eq!(patch_bytes(&mut data, &[7, 7, 7, 4], &[]), Ok(()));
    assert_eq!(data, vec![1, 5]);
    assert_eq!(patch_bytes(&mut data, &[1, 5], &[6]), Ok(()));
    assert_eq!(data, vec![6]);
}

#[test]
fn patch_leaves_the_buffer_where_the_bytes_are_missing() {
    let mut data = vec![1u8, 2, 3];
    assert_eq!(patch_bytes(&mut data, &[4], &[9]), Err(Error::NotFound));
    assert_eq!(data, vec![1, 2, 3]);
}

#[test]
fn patch_leaves_the_buffer_where_the_bytes_are_ambiguous() {
    let mut data = vec![1u8, 2, 1, 2];
    assert_eq!(patch_bytes(&mut data, &[1, 2], &[9, 9]), Err(Error::NotFound));
    assert_eq!(data, vec![1, 2, 1, 2]);
}
