//! The world: entities, their archetypes, and the two registries.

use vstd::prelude::*;
use vstd::std_specs::iter::IteratorSpec;

use crate::archetype::Archetype;
use crate::cell::AtomicRefCell;
use crate::component::{ComponentSet, ComponentTuple, TypeKey};
use crate::entity::{Entity, EntityId};
use crate::resource::{with_resources, ResourceTuple};
use crate::storage::component::{ColumnView, ComponentStorage, ComponentStorageAllocator};
use crate::storage::resource::{ResourceStorageAllocator, SlotView};
use crate::storage::{ReadComponent, ReadResource, WriteComponent, WriteResource};
use crate::system::executor::{acquire_error, SystemExecutor};
use crate::system::{
    column_borrows, columns_kept, columns_with_borrows, component_requests, granted_all,
    resource_requests, slot_borrows, slots_kept, slots_with_borrows, unwritten_kept,
    ComponentGuard, ResourceGuard, RetrievalError, System,
};
use crate::world::model::{
    home_of, joined, left, lemma_home_of, lemma_position_of_signature, lemma_stored_borrows,
    position_of_signature, ArchetypeView, WorldView,
};

pub mod model;
pub mod query;

verus! {

/// The container of everything: the archetypes and the entities in them,
/// the registry of resources and the registry of component columns, each
/// registry in a cell of its own, and the counter that names new entities.
#[derive(Debug)]
pub struct World<R, C> {
    archetypes: Vec<Archetype>,
    entities: Vec<Entity>,
    resource_storage: AtomicRefCell<ResourceStorageAllocator<R>>,
    component_storage: AtomicRefCell<ComponentStorageAllocator<C>>,
    next_id: EntityId,
}

/// What a world shows of an archetype.
pub open spec fn archetype_view(archetype: Archetype) -> ArchetypeView {
    ArchetypeView { signature: archetype.signature(), members: archetype.members() }
}

impl<R, C> View for World<R, C> {
    type V = WorldView<R, C>;

    closed spec fn view(&self) -> WorldView<R, C> {
        WorldView {
            archetypes: self.archetypes@.map_values(|archetype: Archetype| archetype_view(archetype)),
            entities: self.entities@,
            components: self.component_storage.value()@,
            resources: self.resource_storage.value()@,
            next_id: self.next_id,
            component_lock: self.component_storage.state(),
            resource_lock: self.resource_storage.state(),
        }
    }
}

/// The keys and values of a list of packs.
pub open spec fn packs<C>(container: Seq<ComponentTuple<C>>) -> Seq<(Seq<TypeKey>, Seq<C>)> {
    container.map_values(|tuple: ComponentTuple<C>| (tuple.keys(), tuple.values()))
}

/// The view of a world in which nothing was made yet.
pub open spec fn empty_world<R, C>() -> WorldView<R, C> {
    WorldView {
        archetypes: Seq::empty(),
        entities: Seq::empty(),
        components: Map::empty(),
        resources: Map::empty(),
        next_id: 0,
        component_lock: 0,
        resource_lock: 0,
    }
}

impl<R, C> World<R, C> {
    /// A world without entities, components or resources.
    pub fn new() -> (world: Self)
        ensures
            world@ == empty_world::<R, C>(),
            world@.wf(),
    {
        let world = Self {
            archetypes: Vec::new(),
            entities: Vec::new(),
            resource_storage: AtomicRefCell::new(ResourceStorageAllocator::new()),
            component_storage: AtomicRefCell::new(ComponentStorageAllocator::new()),
            next_id: 0,
        };
        assert(world@.archetypes =~= Seq::empty());
        world
    }

    /// A world without entities, components or resources, with room for
    /// `capacity` entities and archetypes.
    pub fn with_capacity(capacity: usize) -> (world: Self)
        ensures
            world@ == empty_world::<R, C>(),
            world@.wf(),
    {
        let world = Self {
            archetypes: Vec::with_capacity(capacity),
            entities: Vec::with_capacity(capacity),
            resource_storage: AtomicRefCell::new(ResourceStorageAllocator::new()),
            component_storage: AtomicRefCell::new(ComponentStorageAllocator::new()),
            next_id: 0,
        };
        assert(world@.archetypes =~= Seq::empty());
        world
    }

    /// Where the archetype with the signature `components` stands.
    fn position(&self, components: &ComponentSet) -> (at: Option<usize>)
        ensures
            at.is_some() == position_of_signature(self@.archetypes, components@).is_some(),
            at matches Some(i) ==> position_of_signature(self@.archetypes, components@) == Some(
                i as int,
            ) && i < self.archetypes@.len(),
    {
        let mut i: usize = 0;
        while i < self.archetypes.len()
            invariant
                i <= self.archetypes@.len(),
                self@.archetypes.len() == self.archetypes@.len(),
                forall|j: int| 0 <= j < i ==> (#[trigger] self@.archetypes[j]).signature != components@,
            decreases self.archetypes@.len() - i,
        {
            if self.archetypes[i].components().eq(components) {
                proof {
                    lemma_position_of_signature(self@.archetypes, components@);
                    assert(self@.archetypes[i as int].signature == components@);
                }
                return Some(i);
            }
            assert(self@.archetypes[i as int].signature != components@);
            i += 1;
        }
        proof {
            lemma_position_of_signature(self@.archetypes, components@);
        }
        None
    }

    /// Where the archetype that has `entity` among its members stands.
    fn home(&self, entity: Entity) -> (at: Option<usize>)
        ensures
            at.is_some() == home_of(self@.archetypes, entity).is_some(),
            at matches Some(i) ==> home_of(self@.archetypes, entity) == Some(i as int) && i
                < self.archetypes@.len(),
    {
        let mut i: usize = 0;
        while i < self.archetypes.len()
            invariant
                i <= self.archetypes@.len(),
                self@.archetypes.len() == self.archetypes@.len(),
                forall|j: int|
                    0 <= j < i ==> !(#[trigger] self@.archetypes[j]).members.contains(entity),
            decreases self.archetypes@.len() - i,
        {
            if self.archetypes[i].contains(entity) {
                proof {
                    lemma_home_of(self@.archetypes, entity);
                    assert(self@.archetypes[i as int].members.contains(entity));
                }
                return Some(i);
            }
            assert(!self@.archetypes[i as int].members.contains(entity));
            i += 1;
        }
        proof {
            lemma_home_of(self@.archetypes, entity);
        }
        None
    }

    /// Makes `entity` a member of the archetype with the signature
    /// `components`, which is made where it is missing.
    fn join_archetype(&mut self, components: ComponentSet, entity: Entity)
        ensures
            final(self)@.archetypes == joined(old(self)@.archetypes, components@, entity),
            final(self).entities == old(self).entities,
            final(self).resource_storage == old(self).resource_storage,
            final(self).component_storage == old(self).component_storage,
            final(self).next_id == old(self).next_id,
    {
        match self.position(&components) {
            Some(i) => {
                self.archetypes[i].push(entity);
                assert(self@.archetypes =~= joined(old(self)@.archetypes, components@, entity));
            },
            None => {
                let mut archetype = Archetype::new(components);
                archetype.push(entity);
                assert(archetype.members() =~= seq![entity]);
                self.archetypes.push(archetype);
                assert(self@.archetypes =~= joined(old(self)@.archetypes, components@, entity));
            },
        }
    }

    /// Creates an entity and gives it `components`. The component registry
    /// may not be borrowed, nor any column that `components` names.
    pub fn create_entity(&mut self, components: ComponentTuple<C>) -> (entity: Entity)
        requires
            old(self)@.wf(),
            components.wf(),
            old(self)@.next_id < u64::MAX,
            old(self)@.component_lock == 0,
            forall|key: TypeKey|
                components.keys().contains(key) && old(self)@.components.contains_key(key) ==> old(
                    self,
                )@.components[key].borrow == 0,
        ensures
            entity@ == old(self)@.next_id,
            final(self)@ == old(self)@.created(components.keys(), components.values()),
            final(self)@.wf(),
    {
        let signature = components.set();
        let entity = Entity::new(self.next_id);
        proof {
            old(self)@.lemma_next_id_is_fresh();
            old(self)@.lemma_created_wf(components.keys(), components.values());
            assert forall|key: TypeKey|
                components.keys().contains(key) && old(self)@.components.contains_key(
                    key,
                ) implies !old(self)@.components[key].ids.contains(entity@) by {
                assert(!old(self)@.carries(entity@, key));
            }
        }
        self.join_archetype(signature, entity);
        components.store(entity, self.component_storage.get_mut());
        self.entities.push(entity);
        self.next_id += 1;
        entity
    }

    /// Creates one entity for each pack of `container`, in their order, and
    /// returns the new entities. The component registry may not be
    /// borrowed, nor any column that a pack names.
    pub fn create_entity_iter(&mut self, container: Vec<ComponentTuple<C>>) -> (created: &[Entity])
        requires
            old(self)@.wf(),
            forall|i: int| 0 <= i < container@.len() ==> (#[trigger] container@[i]).wf(),
            old(self)@.next_id + container@.len() <= u64::MAX,
            old(self)@.component_lock == 0,
            forall|i: int, key: TypeKey|
                0 <= i < container@.len() && (#[trigger] container@[i]).keys().contains(key) && old(
                    self,
                )@.components.contains_key(key) ==> (#[trigger] old(self)@.components[key]).borrow
                    == 0,
        ensures
            final(self)@ == old(self)@.created_all(packs(container@)),
            final(self)@.wf(),
            created@.len() == container@.len(),
            forall|i: int| 0 <= i < created@.len() ==> created@[i]@ == old(self)@.next_id + i,
            created@ == final(self)@.entities.skip(old(self)@.entities.len() as int),
    {
        let start = self.entities.len();
        let ghost all = packs(container@);
        let mut pending: Vec<ComponentTuple<C>> = Vec::with_capacity(container.len());
        let mut container = container;
        let ghost given = container@;
        while container.len() > 0
            invariant
                container@.len() + pending@.len() == given.len(),
                container@ == given.take(container@.len() as int),
                forall|j: int|
                    0 <= j < pending@.len() ==> pending@[j] == given[given.len() - 1 - j],
            decreases container@.len(),
        {
            match container.pop() {
                Some(tuple) => {
                    pending.push(tuple);
                },
                None => {},
            }
        }
        let mut done: usize = 0;
        proof {
            assert(all.take(0) =~= Seq::empty());
        }
        while pending.len() > 0
            invariant
                all == packs(given),
                given.len() <= usize::MAX,
                done + pending@.len() == given.len(),
                forall|j: int|
                    0 <= j < pending@.len() ==> pending@[j] == given[given.len() - 1 - j],
                forall|i: int| 0 <= i < given.len() ==> (#[trigger] given[i]).wf(),
                old(self)@.next_id + given.len() <= u64::MAX,
                self@ == old(self)@.created_all(all.take(done as int)),
                self@.wf(),
                self@.next_id == old(self)@.next_id + done,
                self@.component_lock == 0,
                self.entities@.len() == start + done,
                start == old(self)@.entities.len(),
                self@.entities.take(start as int) == old(self)@.entities,
                forall|p: int|
                    start <= p < start + done ==> (#[trigger] self@.entities[p])@ == old(
                        self,
                    )@.next_id + (p - start),
                forall|i: int, key: TypeKey|
                    0 <= i < given.len() && (#[trigger] given[i]).keys().contains(key)
                        && self@.components.contains_key(key) ==> (
                    #[trigger] self@.components[key]).borrow == 0,
            decreases pending@.len(),
        {
            let ghost before = self@;
            let tuple = pending.pop().unwrap();
            proof {
                assert(tuple == given[done as int]);
                assert(given[done as int].wf());
                assert(all.take(done + 1).drop_last() =~= all.take(done as int));
                assert(all.take(done + 1).last() == (tuple.keys(), tuple.values()));
                lemma_stored_borrows(before.components, tuple.keys(), tuple.values(), before.next_id);
                assert forall|key: TypeKey|
                    tuple.keys().contains(key) && before.components.contains_key(
                        key,
                    ) implies before.components[key].borrow == 0 by {
                    assert(given[done as int].keys().contains(key));
                }
            }
            let entity = self.create_entity(tuple);
            proof {
                assert(self@.entities.take(start as int) =~= before.entities.take(start as int));
                assert forall|i: int, key: TypeKey|
                    0 <= i < given.len() && (#[trigger] given[i]).keys().contains(key)
                        && self@.components.contains_key(key) implies (
                #[trigger] self@.components[key]).borrow == 0 by {
                    if before.components.contains_key(key) {
                        assert(before.components[key].borrow == 0);
                    }
                }
            }
            done += 1;
        }
        proof {
            assert(all.take(given.len() as int) =~= all);
            assert(self@.entities.skip(start as int) =~= self@.entities.subrange(
                start as int,
                self@.entities.len() as int,
            ));
        }
        vstd::slice::slice_subrange(self.entities.as_slice(), start, self.entities.len())
    }

    /// Gives `entity` the components of `components` and moves it to the
    /// archetype of its wider signature. Where `entity` is not in the world,
    /// or carries a component of one of the types already, nothing changes
    /// and the components come back. The component registry may not be
    /// borrowed, nor any column that `components` names.
    pub fn add_components(&mut self, entity: Entity, components: ComponentTuple<C>) -> (res: Result<
        (),
        ComponentTuple<C>,
    >)
        requires
            old(self)@.wf(),
            components.wf(),
            old(self)@.component_lock == 0,
            forall|key: TypeKey|
                components.keys().contains(key) && old(self)@.components.contains_key(key) ==> old(
                    self,
                )@.components[key].borrow == 0,
        ensures
            res.is_ok() == old(self)@.can_extend(entity, components.keys()),
            match res {
                Ok(_) => final(self)@ == old(self)@.extended(
                    entity,
                    components.keys(),
                    components.values(),
                ),
                Err(back) => final(self)@ == old(self)@ && back == components,
            },
            final(self)@.wf(),
    {
        let home = match self.home(entity) {
            Some(home) => home,
            None => {
                return Err(components);
            },
        };
        let added = components.set();
        if !self.archetypes[home].components().is_disjoint(&added) {
            return Err(components);
        }
        let wider = self.archetypes[home].components().union(&added);
        proof {
            lemma_home_of(old(self)@.archetypes, entity);
            old(self)@.lemma_extended_wf(entity, components.keys(), components.values());
            assert(old(self)@.member_of(home as int, entity));
            assert forall|key: TypeKey|
                components.keys().contains(key) && old(self)@.components.contains_key(
                    key,
                ) implies !old(self)@.components[key].ids.contains(entity@) by {
                assert(components.keys().to_set().contains(key));
                assert(old(self)@.archetypes[home as int].signature.contains(key) <==> old(
                    self,
                )@.carries(entity@, key));
            }
        }
        self.archetypes[home].remove(entity);
        assert(self@.archetypes =~= left(old(self)@.archetypes, entity));
        self.join_archetype(wider, entity);
        components.store(entity, self.component_storage.get_mut());
        Ok(())
    }

    /// Where `entity` stands among the entities.
    fn entity_position(&self, entity: Entity) -> (at: Option<usize>)
        ensures
            match at {
                Some(i) => self.entities@.index_of_first(entity) == Some(i as int) && i
                    < self.entities@.len(),
                None => self.entities@.index_of_first(entity).is_none(),
            },
    {
        let mut i: usize = 0;
        while i < self.entities.len()
            invariant
                i <= self.entities@.len(),
                forall|j: int| 0 <= j < i ==> self.entities@[j] != entity,
            decreases self.entities@.len() - i,
        {
            if self.entities[i].id() == entity.id() {
                proof {
                    self.entities@.index_of_first_ensures(entity);
                }
                return Some(i);
            }
            i += 1;
        }
        proof {
            self.entities@.index_of_first_ensures(entity);
        }
        None
    }

    /// Removes `entity` from the world: from its archetype, from the
    /// entities, and its entry from every column. Says whether the entity
    /// was in the world. The component registry may not be borrowed.
    pub fn remove_entity(&mut self, entity: Entity) -> (removed: bool)
        requires
            old(self)@.wf(),
            old(self)@.component_lock == 0,
        ensures
            removed == old(self)@.entities.contains(entity),
            final(self)@ == old(self)@.removed(entity),
            final(self)@.wf(),
    {
        proof {
            old(self)@.lemma_removed_wf(entity);
            old(self).entities@.index_of_first_ensures(entity);
        }
        match self.home(entity) {
            Some(home) => {
                self.archetypes[home].remove(entity);
            },
            None => {},
        }
        assert(self@.archetypes =~= left(old(self)@.archetypes, entity));
        let removed = match self.entity_position(entity) {
            Some(at) => {
                self.entities.remove(at);
                true
            },
            None => false,
        };
        self.component_storage.get_mut().remove_components(entity);
        removed
    }

    /// Registers each resource of `resources` under its type. None of the
    /// types may be registered already, and the resource registry may not
    /// be borrowed.
    pub fn add_resources(&mut self, resources: ResourceTuple<R>)
        requires
            resources.wf(),
            old(self)@.resource_lock == 0,
            forall|key: TypeKey|
                resources.keys().contains(key) ==> !old(self)@.resources.contains_key(key),
        ensures
            final(self)@ == (WorldView {
                resources: with_resources(
                    old(self)@.resources,
                    resources.keys(),
                    resources.values(),
                ),
                ..old(self)@
            }),
            old(self)@.wf() ==> final(self)@.wf(),
    {
        resources.store(self.resource_storage.get_mut());
        proof {
            if old(self)@.wf() {
                old(self)@.lemma_same_structure_wf(self@);
            }
        }
    }

    /// The archetype of `entity`, if the entity is in the world.
    pub fn archetype_of(&self, entity: Entity) -> (archetype: Option<&Archetype>)
        ensures
            match archetype {
                Some(archetype) => home_of(self@.archetypes, entity).is_some() && archetype_view(
                    *archetype,
                ) == self@.archetypes[home_of(self@.archetypes, entity).unwrap()],
                None => home_of(self@.archetypes, entity).is_none(),
            },
    {
        match self.home(entity) {
            Some(home) => Some(&self.archetypes[home]),
            None => None,
        }
    }

    /// A walk over the entities, in the order of their creation.
    pub fn entity_iter(&self) -> (iter: std::slice::Iter<'_, Entity>)
        ensures
            iter.remaining() == self@.entities.as_ref(),
    {
        self.entities.as_slice().iter()
    }

    /// A walk over the archetypes, in the order in which their signatures
    /// were first seen.
    pub fn archetype_iter(&self) -> (iter: std::slice::Iter<'_, Archetype>)
        ensures
            iter.remaining().len() == self@.archetypes.len(),
            forall|i: int|
                0 <= i < self@.archetypes.len() ==> archetype_view(*(#[trigger] iter.remaining()[i]))
                    == self@.archetypes[i],
    {
        self.archetypes.as_slice().iter()
    }

    /// The entities, in the order of their creation.
    pub fn entities(&self) -> (entities: &[Entity])
        ensures
            entities@ == self@.entities,
    {
        self.entities.as_slice()
    }

    /// The archetypes, in the order in which their signatures were first
    /// seen.
    pub fn archetypes(&self) -> (archetypes: &[Archetype])
        ensures
            archetypes@.map_values(|archetype: Archetype| archetype_view(archetype))
                == self@.archetypes,
    {
        self.archetypes.as_slice()
    }

    /// The borrow counter of the resource registry as a whole.
    pub fn resource_lock(&self) -> (state: usize)
        ensures
            state == self@.resource_lock,
    {
        self.resource_storage.borrow_state()
    }

    /// The borrow counter of the component registry as a whole.
    pub fn component_lock(&self) -> (state: usize)
        ensures
            state == self@.component_lock,
    {
        self.component_storage.borrow_state()
    }

    /// The borrow counter of the slot of `key`, if one is registered.
    pub fn resource_borrow(&self, key: TypeKey) -> (state: Option<usize>)
        ensures
            state == if self@.resources.contains_key(key) {
                Some(self@.resources[key].borrow)
            } else {
                None
            },
    {
        self.resource_storage.read_unguarded().borrow_state(key)
    }

    /// The borrow counter of the column of `key`, if one is registered.
    pub fn component_borrow(&self, key: TypeKey) -> (state: Option<usize>)
        ensures
            state == if self@.components.contains_key(key) {
                Some(self@.components[key].borrow)
            } else {
                None
            },
    {
        self.component_storage.read_unguarded().borrow_state(key)
    }

    /// The cell of the resource registry.
    pub(crate) fn resource_storage(&mut self) -> (cell: &mut AtomicRefCell<ResourceStorageAllocator<R>>)
        ensures
            cell.state() == old(self)@.resource_lock,
            cell.value()@ == old(self)@.resources,
            final(self)@ == (WorldView {
                resources: final(cell).value()@,
                resource_lock: final(cell).state(),
                ..old(self)@
            }),
    {
        &mut self.resource_storage
    }

    /// The cell of the component registry.
    pub(crate) fn component_storage(&mut self) -> (cell: &mut AtomicRefCell<
        ComponentStorageAllocator<C>,
    >)
        ensures
            cell.state() == old(self)@.component_lock,
            cell.value()@ == old(self)@.components,
            final(self)@ == (WorldView {
                components: final(cell).value()@,
                component_lock: final(cell).state(),
                ..old(self)@
            }),
    {
        &mut self.component_storage
    }

    /// Runs `executor` once against the two registries. Where the run
    /// cannot take what it needs, the world stays as it is; else the system
    /// has run, and can have changed values only.
    pub fn execute<S: System<R, C>>(&mut self, executor: &mut SystemExecutor<S>) -> (res: Result<
        (),
        RetrievalError,
    >)
        requires
            old(self)@.wf(),
        ensures
            final(self)@.wf(),
            old(self)@.same_structure(final(self)@),
            final(self)@.resource_lock == old(self)@.resource_lock,
            final(self)@.component_lock == old(self)@.component_lock,
            slots_kept(old(self)@.resources, final(self)@.resources),
            columns_kept(old(self)@.components, final(self)@.components),
            unwritten_kept(
                old(self)@.resources,
                final(self)@.resources,
                old(executor).system().resource_pack(),
            ),
            unwritten_kept(
                old(self)@.components,
                final(self)@.components,
                old(executor).system().component_pack(),
            ),
            res.err() == acquire_error(
                old(self)@.resource_lock,
                old(self)@.resources,
                old(self)@.component_lock,
                old(self)@.components,
                old(executor).system().resource_pack(),
                old(executor).system().component_pack(),
            ),
            res.is_err() ==> final(self)@ == old(self)@ && *final(executor) == *old(executor),
            res.is_ok() ==> exists|
                system: &mut S,
                slots: &mut ResourceStorageAllocator<R>,
                columns: &mut ComponentStorageAllocator<C>,
                resource_guards: &Vec<ResourceGuard>,
                component_guards: &Vec<ComponentGuard>,
            |
                #![trigger call_ensures(
                    <S as System<R, C>>::execute,
                    (system, slots, columns, resource_guards, component_guards),
                    (),
                )]
                call_ensures(
                    <S as System<R, C>>::execute,
                    (system, slots, columns, resource_guards, component_guards),
                    (),
                ) && *system == old(executor).system() && *final(system) == final(executor).system() && resource_requests(resource_guards@) == old(
                    executor,
                ).system().resource_pack() && component_requests(component_guards@) == old(
                    executor,
                ).system().component_pack() && slots@ == slots_with_borrows(
                    old(self)@.resources,
                    granted_all(
                        slot_borrows(old(self)@.resources),
                        old(executor).system().resource_pack(),
                    ),
                ) && columns@ == columns_with_borrows(
                    old(self)@.components,
                    granted_all(
                        column_borrows(old(self)@.components),
                        old(executor).system().component_pack(),
                    ),
                ) && final(self)@.resources == slots_with_borrows(
                    final(slots)@,
                    slot_borrows(old(self)@.resources),
                ) && final(self)@.components == columns_with_borrows(
                    final(columns)@,
                    column_borrows(old(self)@.components),
                ),
    {
        let res = executor.execute(&mut self.resource_storage, &mut self.component_storage);
        proof {
            old(self)@.lemma_same_structure_wf(self@);
        }
        res
    }

    /// The resource behind a shared guard, if it is still registered.
    pub fn resource(&self, guard: &ReadResource) -> (resource: Option<&R>)
        ensures
            match resource {
                Some(resource) => self@.resources.contains_key(guard.key()) && *resource
                    == self@.resources[guard.key()].value,
                None => !self@.resources.contains_key(guard.key()),
            },
    {
        self.resource_storage.read_unguarded().resource(guard)
    }

    /// The resource behind the exclusive guard, open to change, if it is
    /// still registered.
    pub fn resource_mut(&mut self, guard: &WriteResource) -> (resource: Option<&mut R>)
        ensures
            match resource {
                Some(resource) => old(self)@.resources.contains_key(guard.key()) && *resource
                    == old(self)@.resources[guard.key()].value && final(self)@ == (WorldView {
                    resources: old(self)@.resources.insert(
                        guard.key(),
                        SlotView {
                            borrow: old(self)@.resources[guard.key()].borrow,
                            value: *final(resource),
                        },
                    ),
                    ..old(self)@
                }),
                None => !old(self)@.resources.contains_key(guard.key()) && final(self)@ == old(
                    self,
                )@,
            },
            old(self)@.wf() ==> final(self)@.wf(),
    {
        match self.resource_storage.get_mut().resource_mut(guard) {
            Some(resource) => {
                proof {
                    if old(self)@.wf() {
                        old(self)@.lemma_same_structure_wf(
                            WorldView {
                                resources: old(self)@.resources.insert(
                                    guard.key(),
                                    SlotView {
                                        borrow: old(self)@.resources[guard.key()].borrow,
                                        value: *final(resource),
                                    },
                                ),
                                ..old(self)@
                            },
                        );
                    }
                }
                Some(resource)
            },
            None => None,
        }
    }

    /// The column behind a shared guard, if it is still registered.
    pub fn column(&self, guard: &ReadComponent) -> (column: Option<&ComponentStorage<C>>)
        ensures
            match column {
                Some(column) => self@.components.contains_key(guard.key()) && column.ids()
                    == self@.components[guard.key()].ids && column.values()
                    == self@.components[guard.key()].values,
                None => !self@.components.contains_key(guard.key()),
            },
            self@.wf() && column.is_some() ==> column.unwrap().wf(),
    {
        let column = self.component_storage.read_unguarded().storage(guard);
        proof {
            if self@.wf() && self@.components.contains_key(guard.key()) {
                assert(self@.components[guard.key()].wf());
            }
        }
        column
    }

    /// The component of `entity` in the column behind the exclusive guard,
    /// open to change, if the column has an entry for the entity.
    pub fn component_mut(&mut self, guard: &WriteComponent, entity: Entity) -> (component: Option<
        &mut C,
    >)
        requires
            old(self)@.wf(),
        ensures
            match component {
                Some(component) => old(self)@.carries(entity@, guard.key()) && *component == old(
                    self,
                )@.components[guard.key()].values[old(self)@.components[guard.key()].ids.index_of(
                    entity@,
                )] && final(self)@ == (WorldView {
                    components: old(self)@.components.insert(
                        guard.key(),
                        ColumnView {
                            borrow: old(self)@.components[guard.key()].borrow,
                            ids: old(self)@.components[guard.key()].ids,
                            values: old(self)@.components[guard.key()].values.update(
                                old(self)@.components[guard.key()].ids.index_of(entity@),
                                *final(component),
                            ),
                        },
                    ),
                    ..old(self)@
                }),
                None => !old(self)@.carries(entity@, guard.key()) && final(self)@ == old(self)@,
            },
            final(self)@.wf(),
    {
        let ghost key = guard.key();
        let ghost columns = old(self)@.components;
        proof {
            assert(columns.contains_key(key) ==> columns[key].wf());
            if columns.contains_key(key) {
                assert(columns.insert(key, columns[key]) =~= columns);
            }
        }
        match self.component_storage.get_mut().storage_mut(guard) {
            Some(column) => match column.get_item_mut(entity.id()) {
                Some(component) => {
                    proof {
                        let changed = ColumnView {
                            borrow: columns[key].borrow,
                            ids: columns[key].ids,
                            values: columns[key].values.update(
                                columns[key].ids.index_of(entity@),
                                *final(component),
                            ),
                        };
                        let after = WorldView {
                            components: columns.insert(key, changed),
                            ..old(self)@
                        };
                        assert(after.components.dom() =~= columns.dom());
                        old(self)@.lemma_same_structure_wf(after);
                    }
                    Some(component)
                },
                None => None,
            },
            None => None,
        }
    }
}

} // verus!
