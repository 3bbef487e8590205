use recipers::repository::{Range, RepositoryError, UpdateResult};
use std::ops::Bound;

#[test]
fn unbound_range_experiment() {
    let data = [1i32, 2, 3, 4, 5];
    let range = (Bound::Unbounded, Bound::Unbounded);

    let got = &data[range];
    assert_eq!(got, &data[..])
}

#[test]
fn len_as_index_experiment() {
    let data = [1, 2, 3, 4, 5];
    let got = &data[..data.len()];
    assert_eq!(&[1, 2, 3, 4, 5], got);
}

#[test]
fn closed_range_is_clipped_to_the_slice() {
    let numbers = [1, 2, 3, 4, 5];
    let range = Range::Closed { start: 2, end: 10 };
    assert_eq!([3, 4, 5], range.index(&numbers))
}

#[test]
fn range_selections() {
    let numbers = [1, 2, 3, 4, 5];
    assert_eq!(&[1, 2, 3, 4, 5], Range::Unbounded.index(&numbers));
    assert_eq!(&[3, 4], Range::Closed { start: 2, end: 3 }.index(&numbers));
    assert_eq!(&[4, 5], Range::LeftClosed { start: 3 }.index(&numbers));
    assert_eq!(&[1, 2, 3], Range::RightClosed { end: 2 }.index(&numbers));
    let empty: &[i32] = &[];
    assert_eq!(empty, Range::Empty.index(&numbers));
    assert_eq!(empty, Range::Unbounded.index(empty));
}

#[test]
fn covering_range_selects_everything() {
    let numbers = [7, 8, 9];
    let covering = Range::covering(numbers.len());
    assert_eq!(&[7, 8, 9], covering.index(&numbers));
    assert!(matches!(Range::covering(0), Range::Empty));
}

#[test]
fn update_results_are_distinguished() {
    assert_ne!(UpdateResult::Changed, UpdateResult::Created);
}

#[test]
fn storage_failures_map_to_the_repository_error() {
    let err = recipers::repository::to_repository_error("connection lost");
    assert!(matches!(err, RepositoryError::MongoDb));
}
