use ecs_core::component::ComponentTuple;
use ecs_core::resource::ResourceTuple;
use ecs_core::storage::join::{intersect, par_intersect, JoinIter};
use ecs_core::system::{ComponentGuard, Request, ResourceGuard, RetrievalError};
use ecs_core::world::query::Query;
use ecs_core::{Entity, World};

const POSITION: u64 = 1;
const VELOCITY: u64 = 2;
const CLOCK: u64 = 7;

type Pair = (i64, i64);

fn pack(items: Vec<(u64, Pair)>) -> ComponentTuple<Pair> {
    let mut tuple = ComponentTuple::new();
    for (key, value) in items {
        assert!(tuple.push(key, value).is_ok());
    }
    tuple
}

fn column_ids(world: &mut World<u64, Pair>, key: u64) -> Vec<u64> {
    let query = Query::query(Vec::new(), vec![Request::Read(key)]);
    let taken = query.fetch_components(world).unwrap();
    let ids = match &taken.guards()[0] {
        ComponentGuard::Read(guard) => world.column(guard).unwrap().entities().to_vec(),
        ComponentGuard::Write(_) => unreachable!(),
    };
    taken.release(world);
    ids
}

fn component_of(world: &mut World<u64, Pair>, key: u64, entity: Entity) -> Option<Pair> {
    let query = Query::query(Vec::new(), vec![Request::Read(key)]);
    let taken = query.fetch_components(world).unwrap();
    let value = match &taken.guards()[0] {
        ComponentGuard::Read(guard) => world.column(guard).unwrap().get_item(entity.id()).copied(),
        ComponentGuard::Write(_) => unreachable!(),
    };
    taken.release(world);
    value
}

#[test]
fn two_column_join_yields_the_common_entities_in_ascending_order() {
    let mut world: World<u64, Pair> = World::new();
    let e1 = world.create_entity(pack(vec![(POSITION, (0, 0)), (VELOCITY, (1, 1))]));
    let e2 = world.create_entity(pack(vec![(POSITION, (10, 0))]));
    let e3 = world.create_entity(pack(vec![(VELOCITY, (0, 1)), (POSITION, (5, 5))]));
    assert_eq!((e1.id(), e2.id(), e3.id()), (0, 1, 2));

    let query = Query::query(Vec::new(), vec![Request::Read(POSITION), Request::Read(VELOCITY)]);
    let taken = query.fetch_components(&mut world).unwrap();
    {
        let guards = taken.guards();
        let (positions, velocities) = match (&guards[0], &guards[1]) {
            (ComponentGuard::Read(p), ComponentGuard::Read(v)) => {
                (world.column(p).unwrap(), world.column(v).unwrap())
            }
            _ => unreachable!(),
        };
        let ids = intersect(&[positions.entities(), velocities.entities()]);
        assert_eq!(ids, vec![e1.id(), e3.id()]);
        assert_eq!(par_intersect(&[positions.entities(), velocities.entities()]), ids);
        let mut walk = JoinIter::new(vec![positions, velocities]);
        assert_eq!(walk.next(), Some(vec![&(0, 0), &(1, 1)]));
        assert_eq!(walk.next(), Some(vec![&(5, 5), &(0, 1)]));
        assert_eq!(walk.next(), None);
    }
    taken.release(&mut world);
    assert_eq!(world.component_lock(), 0);
    assert_eq!(world.component_borrow(POSITION), Some(0));
}

#[test]
fn created_component_is_what_the_column_holds() {
    let mut world: World<u64, Pair> = World::with_capacity(4);
    let first = world.create_entity(pack(vec![(POSITION, (1, 2))]));
    let second = world.create_entity(pack(vec![(POSITION, (3, 4)), (VELOCITY, (5, 6))]));
    assert_eq!(component_of(&mut world, POSITION, first), Some((1, 2)));
    assert_eq!(component_of(&mut world, POSITION, second), Some((3, 4)));
    assert_eq!(component_of(&mut world, VELOCITY, second), Some((5, 6)));
    assert_eq!(component_of(&mut world, VELOCITY, first), None);
    assert_eq!(world.entities(), &[first, second]);
    let walked: Vec<Entity> = world.entity_iter().copied().collect();
    assert_eq!(walked, vec![first, second]);
}

#[test]
fn every_entity_is_in_the_archetype_of_its_signature() {
    let mut world: World<u64, Pair> = World::new();
    let e1 = world.create_entity(pack(vec![(POSITION, (0, 0)), (VELOCITY, (1, 1))]));
    let e2 = world.create_entity(pack(vec![(POSITION, (10, 0))]));
    let e3 = world.create_entity(pack(vec![(VELOCITY, (0, 1)), (POSITION, (5, 5))]));
    let e4 = world.create_entity(pack(vec![]));
    assert_eq!(world.archetypes().len(), 3);
    assert_eq!(world.archetype_iter().count(), 3);
    for (entity, keys) in [
        (e1, vec![POSITION, VELOCITY]),
        (e2, vec![POSITION]),
        (e3, vec![POSITION, VELOCITY]),
        (e4, vec![]),
    ] {
        let homes = world.archetypes().iter().filter(|a| a.contains(entity)).count();
        assert_eq!(homes, 1);
        let archetype = world.archetype_of(entity).unwrap();
        assert!(archetype.contains(entity));
        assert_eq!(archetype.components().set().len(), keys.len());
        for key in [POSITION, VELOCITY] {
            assert_eq!(archetype.components().contains(key), keys.contains(&key));
        }
    }
    for key in [POSITION, VELOCITY] {
        for entity in [e1, e2, e3, e4] {
            let carried = column_ids(&mut world, key).contains(&entity.id());
            let signed = world.archetype_of(entity).unwrap().components().contains(key);
            assert_eq!(carried, signed);
        }
    }
    assert!(world.archetype_of(Entity::new(99)).is_none());
}

#[test]
fn batch_creation_returns_the_new_entities() {
    let mut world: World<u64, Pair> = World::new();
    let earlier = world.create_entity(pack(vec![(POSITION, (9, 9))]));
    let created = world
        .create_entity_iter(vec![
            pack(vec![(POSITION, (1, 1))]),
            pack(vec![(POSITION, (2, 2)), (VELOCITY, (0, 0))]),
            pack(vec![(POSITION, (3, 3))]),
        ])
        .to_vec();
    assert_eq!(created, vec![Entity::new(1), Entity::new(2), Entity::new(3)]);
    assert_eq!(world.entities().len(), 4);
    assert_eq!(column_ids(&mut world, POSITION), vec![0, 1, 2, 3]);
    assert_eq!(column_ids(&mut world, VELOCITY), vec![2]);
    assert_eq!(component_of(&mut world, POSITION, Entity::new(2)), Some((2, 2)));
    assert!(world.archetype_of(earlier).unwrap().contains(Entity::new(3)));
    assert_eq!(world.create_entity_iter(Vec::new()), &[] as &[Entity]);
}

#[test]
fn added_components_move_the_entity_to_the_wider_archetype() {
    let mut world: World<u64, Pair> = World::new();
    let e1 = world.create_entity(pack(vec![(POSITION, (1, 1))]));
    assert!(world.add_components(e1, pack(vec![(VELOCITY, (2, 2))])).is_ok());
    let archetype = world.archetype_of(e1).unwrap();
    assert!(archetype.components().contains(POSITION));
    assert!(archetype.components().contains(VELOCITY));
    assert_eq!(archetype.components().set().len(), 2);
    assert_eq!(archetype.entities(), &[e1]);
    assert_eq!(column_ids(&mut world, POSITION), vec![e1.id()]);
    assert_eq!(column_ids(&mut world, VELOCITY), vec![e1.id()]);
    assert_eq!(component_of(&mut world, POSITION, e1), Some((1, 1)));
    assert_eq!(component_of(&mut world, VELOCITY, e1), Some((2, 2)));
    assert_eq!(world.archetypes().len(), 2);
    assert!(world.archetypes()[0].entities().is_empty());
}

#[test]
fn components_that_cannot_be_added_come_back() {
    let mut world: World<u64, Pair> = World::new();
    let e1 = world.create_entity(pack(vec![(POSITION, (1, 1))]));
    let back = world
        .add_components(e1, pack(vec![(VELOCITY, (2, 2)), (POSITION, (3, 3))]))
        .unwrap_err();
    assert_eq!(back.len(), 2);
    assert!(back.contains(POSITION));
    assert_eq!(component_of(&mut world, POSITION, e1), Some((1, 1)));
    assert_eq!(world.component_borrow(VELOCITY), None);
    assert_eq!(world.archetypes().len(), 1);
    let stranger = Entity::new(50);
    assert!(world.add_components(stranger, pack(vec![(VELOCITY, (0, 0))])).is_err());
    assert_eq!(world.entities(), &[e1]);
}

#[test]
fn removed_entity_leaves_nothing_behind() {
    let mut world: World<u64, Pair> = World::new();
    let e1 = world.create_entity(pack(vec![(POSITION, (1, 1)), (VELOCITY, (1, 1))]));
    let e2 = world.create_entity(pack(vec![(POSITION, (2, 2)), (VELOCITY, (2, 2))]));
    assert!(world.remove_entity(e1));
    assert!(!world.remove_entity(e1));
    assert_eq!(world.entities(), &[e2]);
    assert!(world.archetype_of(e1).is_none());
    assert_eq!(column_ids(&mut world, POSITION), vec![e2.id()]);
    assert_eq!(column_ids(&mut world, VELOCITY), vec![e2.id()]);
    assert!(world.remove_entity(e2));
    assert_eq!(column_ids(&mut world, POSITION), Vec::<u64>::new());
    assert_eq!(column_ids(&mut world, VELOCITY), Vec::<u64>::new());
    let e3 = world.create_entity(pack(vec![(POSITION, (3, 3))]));
    assert_eq!(e3.id(), 2);
}

#[test]
fn added_resource_is_what_a_query_reads() {
    let mut world: World<u64, Pair> = World::new();
    let mut resources = ResourceTuple::new();
    resources.push(CLOCK, 5u64).unwrap();
    resources.push(8, 6u64).unwrap();
    world.add_resources(resources);
    let query = Query::query(vec![Request::Read(CLOCK), Request::Write(8)], Vec::new());
    let (resources, components) = query.fetch(&mut world).unwrap();
    assert_eq!(world.resource_lock(), 1);
    assert_eq!(world.component_lock(), 1);
    assert_eq!(world.resource_borrow(CLOCK), Some(1));
    assert_eq!(world.resource_borrow(8), Some(usize::MAX));
    match (&resources.guards()[0], &resources.guards()[1]) {
        (ResourceGuard::Read(clock), ResourceGuard::Write(other)) => {
            assert_eq!(world.resource(clock), Some(&5));
            *world.resource_mut(other).unwrap() = 60;
        }
        _ => unreachable!(),
    }
    components.release(&mut world);
    resources.release(&mut world);
    assert_eq!(world.resource_lock(), 0);
    assert_eq!(world.component_lock(), 0);
    assert_eq!(world.resource_borrow(8), Some(0));
    let again = Query::query(vec![Request::Read(8)], Vec::new());
    let taken = again.fetch_resources(&mut world).unwrap();
    match &taken.guards()[0] {
        ResourceGuard::Read(other) => assert_eq!(world.resource(other), Some(&60)),
        ResourceGuard::Write(_) => unreachable!(),
    }
    taken.release(&mut world);
}

#[test]
fn exclusive_and_shared_queries_exclude_each_other() {
    let mut world: World<u64, Pair> = World::new();
    world.add_resources(ResourceTuple::single(CLOCK, 0u64));
    let writer = Query::query(vec![Request::Write(CLOCK)], Vec::new());
    let reader = Query::query(vec![Request::Read(CLOCK)], Vec::new());
    let held = writer.fetch_resources(&mut world).unwrap();
    assert_eq!(
        reader.fetch_resources(&mut world).unwrap_err(),
        RetrievalError::ResourceStorageInUse
    );
    assert_eq!(
        writer.fetch_resources(&mut world).unwrap_err(),
        RetrievalError::ResourceStorageInUse
    );
    assert_eq!(world.resource_lock(), 1);
    held.release(&mut world);
    let first = reader.fetch_resources(&mut world).unwrap();
    let second = reader.fetch_resources(&mut world).unwrap();
    assert_eq!(world.resource_borrow(CLOCK), Some(2));
    assert_eq!(
        writer.fetch_resources(&mut world).unwrap_err(),
        RetrievalError::ResourceStorageInUse
    );
    second.release(&mut world);
    first.release(&mut world);
    assert_eq!(world.resource_borrow(CLOCK), Some(0));
    assert_eq!(world.resource_lock(), 0);
}

#[test]
fn refused_query_hands_back_what_it_took() {
    let mut world: World<u64, Pair> = World::new();
    world.add_resources(ResourceTuple::single(CLOCK, 0u64));
    world.create_entity(pack(vec![(POSITION, (0, 0))]));
    let missing = Query::query(vec![Request::Read(CLOCK), Request::Read(99)], Vec::new());
    assert_eq!(
        missing.fetch_resources(&mut world).unwrap_err(),
        RetrievalError::NoSuchResourceStorage
    );
    assert_eq!(world.resource_borrow(CLOCK), Some(0));
    assert_eq!(world.resource_lock(), 0);
    let twice = Query::query(
        Vec::new(),
        vec![Request::Read(POSITION), Request::Write(POSITION)],
    );
    assert_eq!(
        twice.fetch_components(&mut world).unwrap_err(),
        RetrievalError::ComponentStorageInUse
    );
    assert_eq!(world.component_borrow(POSITION), Some(0));
    let both = Query::query(vec![Request::Write(CLOCK)], vec![Request::Read(VELOCITY)]);
    assert_eq!(
        both.fetch(&mut world).unwrap_err(),
        RetrievalError::NoSuchComponentStorage
    );
    assert_eq!(world.resource_borrow(CLOCK), Some(0));
    assert_eq!(world.resource_lock(), 0);
    assert_eq!(world.component_lock(), 0);
}

#[test]
fn exclusive_guard_reaches_one_component() {
    let mut world: World<u64, Pair> = World::new();
    let e1 = world.create_entity(pack(vec![(POSITION, (1, 1))]));
    let e2 = world.create_entity(pack(vec![(VELOCITY, (2, 2))]));
    let query = Query::query(Vec::new(), vec![Request::Write(POSITION)]);
    let taken = query.fetch_components(&mut world).unwrap();
    match &taken.guards()[0] {
        ComponentGuard::Write(guard) => {
            world.component_mut(guard, e1).unwrap().0 = 100;
            assert!(world.component_mut(guard, e2).is_none());
        }
        ComponentGuard::Read(_) => unreachable!(),
    }
    taken.release(&mut world);
    assert_eq!(component_of(&mut world, POSITION, e1), Some((100, 1)));
}
