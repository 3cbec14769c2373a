use ecs_core::cell::{AtomicRefCell, MUTABLY_BORROWED};
use ecs_core::{Entity, EntityId};

#[test]
fn entity_carries_its_identifier() {
    let entity = Entity::new(42);
    assert_eq!(entity.id(), 42);
    assert_eq!(entity, Entity::new(42));
    assert_ne!(entity, Entity::new(43));
    assert!(Entity::new(1) < Entity::new(2));
    let id: EntityId = entity.id();
    assert_eq!(id, 42u64);
    assert_eq!(Entity::default().id(), 0);
}

#[test]
fn fresh_cell_is_free_of_borrows() {
    let cell = AtomicRefCell::new(5u32);
    assert_eq!(cell.borrow_state(), 0);
    assert_eq!(cell.into_inner(), 5);
}

#[test]
fn shared_borrows_are_counted() {
    let mut cell = AtomicRefCell::new(5u32);
    let first = cell.try_borrow().unwrap();
    assert_eq!(cell.borrow_state(), 1);
    let second = cell.try_borrow().unwrap();
    assert_eq!(cell.borrow_state(), 2);
    assert_eq!(*cell.read(&first), 5);
    cell.release(first);
    assert_eq!(cell.borrow_state(), 1);
    cell.release(second);
    assert_eq!(cell.borrow_state(), 0);
}

#[test]
fn exclusive_borrow_needs_a_free_cell() {
    let mut cell = AtomicRefCell::new(5u32);
    let shared = cell.try_borrow().unwrap();
    assert!(cell.try_borrow_mut().is_none());
    assert_eq!(cell.borrow_state(), 1);
    cell.release(shared);
    let exclusive = cell.try_borrow_mut().unwrap();
    assert_eq!(cell.borrow_state(), MUTABLY_BORROWED);
    assert_eq!(MUTABLY_BORROWED, usize::MAX);
    assert!(cell.try_borrow().is_none());
    assert!(cell.try_borrow_mut().is_none());
    assert_eq!(cell.borrow_state(), MUTABLY_BORROWED);
    *cell.write(&exclusive) = 9;
    cell.release_mut(exclusive);
    assert_eq!(cell.borrow_state(), 0);
    assert_eq!(cell.into_inner(), 9);
}

#[test]
fn borrow_and_borrow_mut_grant_on_a_free_cell() {
    let mut cell = AtomicRefCell::new(String::from("a"));
    let shared = cell.borrow();
    assert_eq!(cell.borrow_state(), 1);
    cell.release(shared);
    let exclusive = cell.borrow_mut();
    assert_eq!(cell.borrow_state(), usize::MAX);
    cell.release_mut(exclusive);
    assert_eq!(cell.borrow_state(), 0);
}

#[test]
fn replace_returns_the_old_value() {
    let mut cell = AtomicRefCell::new(1u8);
    assert_eq!(cell.replace(2), 1);
    assert_eq!(*cell.get_mut(), 2);
    assert_eq!(cell.borrow_state(), 0);
}

#[test]
fn replace_with_stores_what_the_function_returns() {
    let mut cell = AtomicRefCell::new(10u32);
    let previous = cell.replace_with(|value| {
        *value += 1;
        *value * 2
    });
    assert_eq!(previous, 11);
    assert_eq!(cell.into_inner(), 22);
}

#[test]
fn swap_exchanges_the_values() {
    let mut left = AtomicRefCell::new(1u8);
    let mut right = AtomicRefCell::new(2u8);
    left.swap(&mut right);
    assert_eq!(left.into_inner(), 2);
    assert_eq!(right.into_inner(), 1);
}

#[test]
fn get_mut_leaves_the_counter_alone() {
    let mut cell = AtomicRefCell::new(vec![1, 2]);
    let guard = cell.try_borrow().unwrap();
    cell.get_mut().push(3);
    assert_eq!(cell.borrow_state(), 1);
    cell.release(guard);
    assert_eq!(cell.into_inner(), vec![1, 2, 3]);
}

#[test]
fn entities_are_ordered_by_their_identifiers() {
    assert_eq!(Entity::new(3).id(), 3);
    assert!(Entity::new(5) == Entity::new(5));
    assert!(Entity::new(1) < Entity::new(2));
    assert!(!(Entity::new(2) < Entity::new(1)));
    assert!(Entity::new(2) <= Entity::new(2));
    assert!(Entity::new(9) > Entity::new(2));
    assert_eq!(Entity::new(u64::MAX).id(), u64::MAX);
    assert_eq!(Entity::new(1).partial_cmp(&Entity::new(1)), Some(std::cmp::Ordering::Equal));
    assert_eq!(Entity::new(1).cmp(&Entity::new(2)), std::cmp::Ordering::Less);
    let mut entities = vec![Entity::new(3), Entity::new(1), Entity::new(2)];
    entities.sort();
    assert_eq!(entities, vec![Entity::new(1), Entity::new(2), Entity::new(3)]);
}
