use ecs_core::storage::join::{intersect, occurs_in_all, par_intersect, Join, JoinIter, ParJoinIter};
use ecs_core::storage::ComponentStorage;

fn column_of(entries: &[(u64, i32)]) -> ComponentStorage<i32> {
    let mut column = ComponentStorage::new();
    for (id, value) in entries {
        column.push(*id, *value).unwrap();
    }
    column
}

#[test]
fn intersection_is_ascending_and_free_of_duplicates() {
    let a: &[u64] = &[9, 3, 7, 1, 5];
    let b: &[u64] = &[5, 9, 2, 3];
    let c: &[u64] = &[3, 4, 9, 5, 8];
    assert_eq!(intersect(&[a, b, c]), vec![3, 5, 9]);
    assert_eq!(par_intersect(&[a, b, c]), vec![3, 5, 9]);
    assert_eq!(intersect(&[a]), vec![1, 3, 5, 7, 9]);
    assert_eq!(par_intersect(&[a]), vec![1, 3, 5, 7, 9]);
}

#[test]
fn intersection_cuts_repeated_items() {
    let a: &[u64] = &[4, 4, 2, 2, 4];
    let b: &[u64] = &[2, 4, 4];
    assert_eq!(intersect(&[a, b]), vec![2, 4]);
    assert_eq!(par_intersect(&[a, b]), vec![2, 4]);
    assert_eq!(intersect(&[a, a]), vec![2, 4]);
}

#[test]
fn intersection_of_no_inputs_is_empty() {
    assert_eq!(intersect(&[]), Vec::<u64>::new());
    assert_eq!(par_intersect(&[]), Vec::<u64>::new());
}

#[test]
fn intersection_with_an_empty_input_is_empty() {
    let a: &[u64] = &[1, 2, 3];
    let empty: &[u64] = &[];
    assert_eq!(intersect(&[a, empty]), Vec::<u64>::new());
    assert_eq!(intersect(&[empty, a]), Vec::<u64>::new());
    assert_eq!(par_intersect(&[a, empty, a]), Vec::<u64>::new());
    assert_eq!(intersect(&[empty]), Vec::<u64>::new());
}

#[test]
fn intersection_of_disjoint_inputs_is_empty() {
    let a: &[u64] = &[1, 2];
    let b: &[u64] = &[3, 4];
    assert_eq!(intersect(&[a, b]), Vec::<u64>::new());
    assert_eq!(par_intersect(&[a, b]), Vec::<u64>::new());
}

#[test]
fn occurs_in_all_asks_every_slice() {
    let a: &[u64] = &[1, 2];
    let b: &[u64] = &[2, 3];
    assert!(occurs_in_all(&[a, b], 2));
    assert!(!occurs_in_all(&[a, b], 1));
    assert!(occurs_in_all(&[], 1));
}

#[test]
fn join_walks_the_common_entities() {
    let positions = column_of(&[(3, 30), (1, 10), (2, 20)]);
    let velocities = column_of(&[(2, -2), (3, -3), (4, -4)]);
    let mut walk = JoinIter::new(vec![&positions, &velocities]);
    assert_eq!(walk.entities(), &[2, 3]);
    assert_eq!(walk.next(), Some(vec![&20, &-2]));
    assert_eq!(walk.next(), Some(vec![&30, &-3]));
    assert_eq!(walk.next(), None);
    assert_eq!(walk.next(), None);
}

#[test]
fn join_over_no_columns_is_empty() {
    let mut walk: JoinIter<i32> = JoinIter::new(Vec::new());
    assert_eq!(walk.entities(), &[] as &[u64]);
    assert_eq!(walk.next(), None);
    let found: ParJoinIter<i32> = ParJoinIter::new(Vec::new());
    assert_eq!(found.get(0), None);
}

#[test]
fn parallel_join_finds_the_same_entities() {
    let positions = column_of(&[(3, 30), (1, 10), (2, 20)]);
    let velocities = column_of(&[(2, -2), (3, -3), (4, -4)]);
    let found = vec![&positions, &velocities].par_join();
    assert_eq!(found.entities(), &[2, 3]);
    assert_eq!(found.get(0), Some(vec![&20, &-2]));
    assert_eq!(found.get(1), Some(vec![&30, &-3]));
    assert_eq!(found.get(2), None);
    let mut walk = vec![&positions, &velocities].join();
    assert_eq!(walk.next(), Some(vec![&20, &-2]));
}

#[test]
fn join_with_an_empty_column_is_empty() {
    let positions = column_of(&[(1, 10)]);
    let none = column_of(&[]);
    let mut walk = vec![&positions, &none].join();
    assert_eq!(walk.next(), None);
}
