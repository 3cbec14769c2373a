use ecs_core::storage::{ComponentStorage, ComponentStorageAllocator, ResourceStorage, ResourceStorageAllocator};
use ecs_core::Entity;

const A: u64 = 1;
const B: u64 = 2;

#[test]
fn registering_twice_is_registering_once() {
    let mut registry: ComponentStorageAllocator<i32> = ComponentStorageAllocator::new();
    assert!(!registry.contains(A));
    assert!(registry.register(A));
    assert!(registry.contains(A));
    let guard = registry.get_mut(A).unwrap();
    registry.storage_mut(&guard).unwrap().push(5, 50).unwrap();
    registry.release_mut(guard);
    assert!(!registry.register(A));
    let guard = registry.get(A).unwrap();
    assert_eq!(registry.storage(&guard).unwrap().entities(), &[5]);
    assert_eq!(registry.storage(&guard).unwrap().components(), &[50]);
    registry.release(guard);
    assert_eq!(registry.borrow_state(A), Some(0));
}

#[test]
fn register_with_calls_the_function_only_for_a_new_key() {
    let mut registry: ComponentStorageAllocator<i32> = ComponentStorageAllocator::with_capacity(4);
    let made = registry.register_with(A, || {
        let mut column = ComponentStorage::new();
        column.push(1, 10).unwrap();
        column
    });
    assert!(made);
    let again = registry.register_with(A, || panic!("the column is there"));
    assert!(!again);
    let guard = registry.try_get(A).unwrap();
    assert_eq!(registry.storage(&guard).unwrap().entities(), &[1]);
    registry.release(guard);
}

#[test]
fn column_borrows_exclude_each_other() {
    let mut registry: ComponentStorageAllocator<i32> = ComponentStorageAllocator::new();
    registry.register(A);
    assert!(registry.try_get(B).is_none());
    assert!(registry.try_get_mut(B).is_none());
    let first = registry.try_get(A).unwrap();
    let second = registry.try_get(A).unwrap();
    assert_eq!(registry.borrow_state(A), Some(2));
    assert!(registry.try_get_mut(A).is_none());
    assert_eq!(first.type_key(), A);
    registry.release(first);
    registry.release(second);
    let exclusive = registry.try_get_mut(A).unwrap();
    assert_eq!(registry.borrow_state(A), Some(usize::MAX));
    assert!(registry.try_get(A).is_none());
    assert!(registry.try_get_mut(A).is_none());
    assert_eq!(exclusive.type_key(), A);
    registry.release_mut(exclusive);
    assert_eq!(registry.borrow_state(A), Some(0));
    assert_eq!(registry.borrow_state(B), None);
}

#[test]
fn get_or_register_makes_the_column() {
    let mut registry: ComponentStorageAllocator<i32> = ComponentStorageAllocator::new();
    let guard = registry.get_or_register(A);
    assert!(registry.contains(A));
    assert_eq!(registry.borrow_state(A), Some(1));
    registry.release(guard);
    let guard = registry.get_mut_or_register(B);
    assert_eq!(registry.borrow_state(B), Some(usize::MAX));
    registry.release_mut(guard);
    let guard = registry.get_or_register_with(3, || ComponentStorage::with_capacity(2));
    assert_eq!(registry.borrow_state(3), Some(1));
    registry.release(guard);
    let guard = registry.get_mut_or_register_with(3, || panic!("the column is there"));
    assert_eq!(registry.borrow_state(3), Some(usize::MAX));
    registry.release_mut(guard);
}

#[test]
fn remove_components_empties_the_entity_out_of_every_column() {
    let mut registry: ComponentStorageAllocator<&'static str> = ComponentStorageAllocator::new();
    for key in [A, B] {
        let guard = registry.get_mut_or_register(key);
        let column = registry.storage_mut(&guard).unwrap();
        column.push(1, "one").unwrap();
        column.push(2, "two").unwrap();
        registry.release_mut(guard);
    }
    registry.remove_components(Entity::new(1));
    for key in [A, B] {
        let guard = registry.get(key).unwrap();
        assert_eq!(registry.storage(&guard).unwrap().entities(), &[2]);
        assert_eq!(registry.storage(&guard).unwrap().components(), &["two"]);
        registry.release(guard);
    }
    registry.remove_components(Entity::new(7));
    registry.remove_components(Entity::new(2));
    for key in [A, B] {
        let guard = registry.get(key).unwrap();
        assert_eq!(registry.storage(&guard).unwrap().len(), 0);
        registry.release(guard);
    }
}

#[test]
fn remove_storage_takes_the_column_out() {
    let mut registry: ComponentStorageAllocator<i32> = ComponentStorageAllocator::new();
    assert!(registry.remove_storage(A).is_none());
    registry.register(A);
    assert!(registry.get_and_update(A, |column| {
        column.push(4, 40).unwrap();
    }));
    assert!(!registry.get_and_update(B, |_| panic!("there is no column")));
    let column = registry.remove_storage(A).unwrap();
    assert_eq!(column.entities(), &[4]);
    assert_eq!(column.components(), &[40]);
    assert!(!registry.contains(A));
}

#[test]
fn registered_resource_is_what_a_borrow_reads() {
    let mut registry: ResourceStorageAllocator<String> = ResourceStorageAllocator::new();
    assert!(registry.register(A, String::from("clock")));
    let guard = registry.get(A).unwrap();
    assert_eq!(registry.resource(&guard).unwrap(), "clock");
    registry.release(guard);
    assert!(!registry.register(A, String::from("other")));
    let guard = registry.get(A).unwrap();
    assert_eq!(registry.resource(&guard).unwrap(), "clock");
    registry.release(guard);
}

#[test]
fn resource_borrows_exclude_each_other() {
    let mut registry: ResourceStorageAllocator<u64> = ResourceStorageAllocator::with_capacity(2);
    assert!(registry.try_get(A).is_none());
    assert!(registry.try_get_mut(A).is_none());
    registry.register(A, 1);
    let write = registry.try_get_mut(A).unwrap();
    assert!(registry.try_get(A).is_none());
    *registry.resource_mut(&write).unwrap() += 1;
    assert_eq!(write.type_key(), A);
    registry.release_mut(write);
    let read = registry.try_get(A).unwrap();
    assert!(registry.try_get_mut(A).is_none());
    assert_eq!(registry.resource(&read), Some(&2));
    assert_eq!(registry.borrow_state(A), Some(1));
    registry.release(read);
    assert_eq!(registry.borrow_state(A), Some(0));
}

#[test]
fn get_and_register_keeps_a_resource_that_is_there() {
    let mut registry: ResourceStorageAllocator<u64> = ResourceStorageAllocator::new();
    let guard = registry.get_and_register(A, 5);
    assert_eq!(registry.resource(&guard), Some(&5));
    registry.release(guard);
    let guard = registry.get_mut_and_register(A, 6);
    assert_eq!(registry.resource_mut(&guard), Some(&mut 5));
    registry.release_mut(guard);
    let guard = registry.get_and_register_with(B, || ResourceStorage::new(8));
    assert_eq!(registry.resource(&guard), Some(&8));
    registry.release(guard);
    let guard = registry.get_mut_and_register_with(B, || panic!("the slot is there"));
    registry.release_mut(guard);
    assert!(registry.register_with(3, || ResourceStorage::new(1)));
    assert!(!registry.register_with(3, || panic!("the slot is there")));
    let slot = registry.remove_storage(B).unwrap();
    assert_eq!(*slot.get(), 8);
    assert_eq!(slot.into_inner(), 8);
    assert!(registry.remove_storage(B).is_none());
}
