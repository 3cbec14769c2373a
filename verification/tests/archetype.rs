use std::collections::HashSet;

use ecs_core::component::{ComponentSet, ComponentTuple};
use ecs_core::resource::ResourceTuple;
use ecs_core::storage::{ComponentStorageAllocator, ResourceStorageAllocator};
use ecs_core::{Archetype, Entity};

fn set_of(keys: &[u64]) -> ComponentSet {
    let mut ids = HashSet::new();
    for key in keys {
        ids.insert(*key);
    }
    ComponentSet::new(ids)
}

#[test]
fn signatures_compare_as_sets() {
    assert!(set_of(&[1, 2, 3]) == set_of(&[3, 1, 2]));
    assert!(set_of(&[1, 2]) != set_of(&[1, 2, 3]));
    assert!(set_of(&[1, 2]) != set_of(&[1, 4]));
    assert!(set_of(&[]) == ComponentSet::empty());
    assert!(set_of(&[1]).clone() == set_of(&[1]));
}

#[test]
fn signatures_join_and_part() {
    let left = set_of(&[1, 2]);
    let right = set_of(&[3]);
    assert!(left.is_disjoint(&right));
    assert!(!left.is_disjoint(&set_of(&[2, 3])));
    assert!(left.union(&right) == set_of(&[1, 2, 3]));
    assert!(left.union(&left) == left);
    assert!(left.contains(1));
    assert!(!left.contains(3));
    assert_eq!(left.set().len(), 2);
    assert_eq!(left.into_inner().len(), 2);
}

#[test]
fn pack_holds_each_type_once() {
    let mut pack: ComponentTuple<&'static str> = ComponentTuple::new();
    assert_eq!(pack.len(), 0);
    assert_eq!(pack.push(1, "a"), Ok(()));
    assert_eq!(pack.push(2, "b"), Ok(()));
    assert_eq!(pack.push(1, "c"), Err("c"));
    assert_eq!(pack.len(), 2);
    assert!(pack.contains(2));
    assert!(!pack.contains(3));
    assert!(pack.set() == set_of(&[1, 2]));
    assert!(ComponentSet::from_tuple(&pack) == set_of(&[2, 1]));
    assert!(ComponentTuple::single(9, "z").set() == set_of(&[9]));
}

#[test]
fn pack_stores_each_component_in_its_column() {
    let mut registry: ComponentStorageAllocator<&'static str> = ComponentStorageAllocator::new();
    registry.register(1);
    let mut pack = ComponentTuple::new();
    pack.push(1, "a").unwrap();
    pack.push(2, "b").unwrap();
    pack.store(Entity::new(7), &mut registry);
    for (key, value) in [(1u64, "a"), (2, "b")] {
        let guard = registry.get(key).unwrap();
        let column = registry.storage(&guard).unwrap();
        assert_eq!(column.entities(), &[7]);
        assert_eq!(column.components(), &[value]);
        registry.release(guard);
    }
}

#[test]
fn resource_pack_registers_each_resource() {
    let mut registry: ResourceStorageAllocator<u32> = ResourceStorageAllocator::new();
    let mut pack: ResourceTuple<u32> = ResourceTuple::new();
    assert_eq!(pack.push(1, 10), Ok(()));
    assert_eq!(pack.push(1, 11), Err(11));
    assert_eq!(pack.push(2, 20), Ok(()));
    assert_eq!(pack.len(), 2);
    assert!(pack.contains(1));
    assert!(pack.is_new_to(&registry));
    pack.store(&mut registry);
    for (key, value) in [(1u64, 10u32), (2, 20)] {
        let guard = registry.get(key).unwrap();
        assert_eq!(registry.resource(&guard), Some(&value));
        registry.release(guard);
    }
    assert!(!ResourceTuple::single(2, 0u32).is_new_to(&registry));
    assert!(ResourceTuple::single(3, 0u32).is_new_to(&registry));
}

#[test]
fn archetype_keeps_its_members_in_order() {
    let mut archetype = Archetype::new(set_of(&[1, 2]));
    assert!(archetype.components() == &set_of(&[2, 1]));
    assert_eq!(archetype.pop(), None);
    for id in [5u64, 6, 7] {
        archetype.push(Entity::new(id));
    }
    assert!(archetype.contains(Entity::new(6)));
    assert!(!archetype.contains(Entity::new(8)));
    assert!(archetype.remove(Entity::new(6)));
    assert!(!archetype.remove(Entity::new(6)));
    assert_eq!(archetype.entities(), &[Entity::new(5), Entity::new(7)]);
    let walked: Vec<u64> = archetype.entity_iter().map(|entity| entity.id()).collect();
    assert_eq!(walked, vec![5, 7]);
    assert_eq!(archetype.pop(), Some(Entity::new(7)));
    assert_eq!(archetype.entities(), &[Entity::new(5)]);
}

#[test]
fn archetype_remove_takes_the_first_occurrence() {
    let mut archetype = Archetype::new(ComponentSet::empty());
    for id in [1u64, 2, 1, 3] {
        archetype.push(Entity::new(id));
    }
    assert!(archetype.remove(Entity::new(1)));
    assert_eq!(
        archetype.entities(),
        &[Entity::new(2), Entity::new(1), Entity::new(3)]
    );
}
