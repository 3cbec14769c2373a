use ecs_core::storage::ComponentStorage;

fn column_of(entries: &[(u64, &'static str)]) -> ComponentStorage<&'static str> {
    let mut column = ComponentStorage::new();
    for (id, value) in entries {
        assert_eq!(column.push(*id, *value), Ok(()));
    }
    column
}

#[test]
fn push_then_pop_returns_the_entry() {
    let mut column: ComponentStorage<i64> = ComponentStorage::new();
    assert_eq!(column.push(7, 70), Ok(()));
    assert_eq!(column.push(9, 90), Ok(()));
    assert_eq!(column.len(), 2);
    assert_eq!(column.pop(), Some((9, 90)));
    assert_eq!(column.pop(), Some((7, 70)));
    assert_eq!(column.pop(), None);
}

#[test]
fn popping_an_empty_column_yields_nothing() {
    let mut column: ComponentStorage<u8> = ComponentStorage::new();
    assert_eq!(column.pop(), None);
    assert_eq!(column.len(), 0);
    let mut sized: ComponentStorage<u8> = ComponentStorage::with_capacity(8);
    assert_eq!(sized.pop(), None);
}

#[test]
fn push_of_a_present_id_gives_the_value_back() {
    let mut column = column_of(&[(1, "a"), (2, "b")]);
    assert_eq!(column.push(1, "again"), Err("again"));
    assert_eq!(column.entities(), &[1, 2]);
    assert_eq!(column.components(), &["a", "b"]);
}

#[test]
fn ids_stay_distinct() {
    let mut column = column_of(&[(3, "c"), (1, "a")]);
    for id in [3u64, 1, 3, 2, 2, 1] {
        let _ = column.push(id, "x");
    }
    let ids = column.entities().to_vec();
    assert_eq!(ids, vec![3, 1, 2]);
    for (i, a) in ids.iter().enumerate() {
        for (j, b) in ids.iter().enumerate() {
            assert!(i == j || a != b);
        }
    }
    assert_eq!(column.components().len(), ids.len());
}

#[test]
fn remove_at_an_index_keeps_the_order() {
    let mut column = column_of(&[(1, "a"), (2, "b"), (3, "c"), (4, "d")]);
    assert_eq!(column.remove(1), Some((2, "b")));
    assert_eq!(column.entities(), &[1, 3, 4]);
    assert_eq!(column.components(), &["a", "c", "d"]);
    assert_eq!(column.remove(3), None);
    assert_eq!(column.remove(2), Some((4, "d")));
    assert_eq!(column.entities(), &[1, 3]);
}

#[test]
fn remove_by_id_is_a_shift_remove() {
    let mut column = column_of(&[(10, "a"), (20, "b"), (30, "c"), (40, "d")]);
    assert_eq!(column.remove_by_id(20), Some("b"));
    assert_eq!(column.entities(), &[10, 30, 40]);
    assert_eq!(column.components(), &["a", "c", "d"]);
    assert_eq!(column.remove_by_id(20), None);
    assert_eq!(column.remove_by_id(10), Some("a"));
    assert_eq!(column.entities(), &[30, 40]);
}

#[test]
fn find_and_get_item_locate_an_entry() {
    let mut column = column_of(&[(10, "a"), (20, "b")]);
    assert_eq!(column.find(20), Some(1));
    assert_eq!(column.find(5), None);
    assert_eq!(column.get_item(10), Some(&"a"));
    assert_eq!(column.get_item(11), None);
    *column.get_item_mut(20).unwrap() = "z";
    assert!(column.get_item_mut(21).is_none());
    assert_eq!(column.components(), &["a", "z"]);
    assert_eq!(column.entities(), &[10, 20]);
}

#[test]
fn iteration_follows_storage_order() {
    let column = column_of(&[(3, "c"), (1, "a"), (2, "b")]);
    let entries: Vec<(u64, &str)> = column.iter().into_iter().map(|(id, v)| (id, *v)).collect();
    assert_eq!(entries, vec![(3, "c"), (1, "a"), (2, "b")]);
    let values: Vec<&str> = column.comp_iter().copied().collect();
    assert_eq!(values, vec!["c", "a", "b"]);
}

#[test]
fn values_can_be_changed_in_place() {
    let mut column = column_of(&[(3, "c"), (1, "a")]);
    {
        let values = column.components_mut();
        assert_eq!(values.len(), 2);
        values[0] = "z";
        values.swap(0, 1);
    }
    assert_eq!(column.entities(), &[3, 1]);
    assert_eq!(column.components(), &["a", "z"]);
    assert_eq!(column.get_item(1), Some(&"z"));
}

#[test]
fn mutable_iteration_reaches_every_value_in_order() {
    let mut column: ComponentStorage<i32> = ComponentStorage::new();
    for (id, value) in [(3u64, 30), (1, 10), (2, 20)] {
        column.push(id, value).unwrap();
    }
    for (id, value) in column.iter_mut() {
        *value += id as i32;
    }
    assert_eq!(column.entities(), &[3, 1, 2]);
    assert_eq!(column.components(), &[33, 11, 22]);
    let ids: Vec<u64> = column.iter_mut().into_iter().map(|(id, _)| id).collect();
    assert_eq!(ids, vec![3, 1, 2]);
    for (place, value) in column.comp_iter_mut().into_iter().enumerate() {
        *value = place as i32;
    }
    assert_eq!(column.components(), &[0, 1, 2]);
    assert_eq!(column.entities(), &[3, 1, 2]);
    let mut empty: ComponentStorage<i32> = ComponentStorage::new();
    assert!(empty.iter_mut().is_empty());
    assert!(empty.comp_iter_mut().is_empty());
}
