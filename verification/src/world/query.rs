//! Queries: the borrows of a system's two packs, taken for direct use.

use std::marker::PhantomData;
use vstd::prelude::*;

use crate::cell::{is_exclusive, AtomicRef};
use crate::component::TypeKey;
use crate::entity::EntityId;
use crate::storage::component::{ColumnView, ComponentStorageAllocator};
use crate::storage::resource::{ResourceStorageAllocator, SlotView};
use crate::storage::{WriteComponent, WriteResource};
use crate::system::{
    column_borrows, columns_kept, columns_with_borrows, component_error, component_requests,
    fetch_components, fetch_resources, first_refusal, granted_all, lemma_fetch_then_release,
    release_components, release_resources, resource_error, resource_requests, returnable_all,
    returned_all, slot_borrows, slots_kept, slots_with_borrows, unwritten_kept, ComponentGuard,
    Request, ResourceGuard, RetrievalError, System,
};
use crate::world::model::WorldView;
use crate::world::World;

verus! {

/// The shape of a query: the pack of resource borrows and the pack of
/// component borrows that it takes.
#[derive(Debug)]
pub struct Query {
    resources: Vec<Request>,
    components: Vec<Request>,
}

/// The resource borrows of a query: a shared borrow of the resource
/// registry, and the guards of the pack.
#[derive(Debug)]
#[must_use]
pub struct QueryResources {
    lock: AtomicRef,
    resources: Vec<ResourceGuard>,
}

/// The component borrows of a query: a shared borrow of the component
/// registry, and the guards of the pack.
#[derive(Debug)]
#[must_use]
pub struct QueryComponents {
    lock: AtomicRef,
    components: Vec<ComponentGuard>,
}

impl QueryResources {
    /// The requests that were granted.
    pub closed spec fn requests(&self) -> Seq<Request> {
        resource_requests(self.resources@)
    }

    /// The guards, in the order of the requests.
    pub fn guards(&self) -> (guards: &Vec<ResourceGuard>)
        ensures
            resource_requests(guards@) == self.requests(),
    {
        &self.resources
    }

    /// Hands the guards and the borrow of the registry back.
    pub fn release<R, C>(self, world: &mut World<R, C>)
        requires
            old(world)@.resource_lock >= 1,
            returnable_all(slot_borrows(old(world)@.resources), self.requests()),
        ensures
            final(world)@ == (WorldView {
                resource_lock: (old(world)@.resource_lock - 1) as usize,
                resources: slots_with_borrows(
                    old(world)@.resources,
                    returned_all(slot_borrows(old(world)@.resources), self.requests()),
                ),
                ..old(world)@
            }),
            old(world)@.wf() ==> final(world)@.wf(),
    {
        let QueryResources { lock, resources } = self;
        let cell = world.resource_storage();
        release_resources(cell.get_mut(), resources);
        cell.release(lock);
        proof {
            if old(world)@.wf() {
                old(world)@.lemma_same_structure_wf(world@);
            }
        }
    }
}

impl QueryComponents {
    /// The requests that were granted.
    pub closed spec fn requests(&self) -> Seq<Request> {
        component_requests(self.components@)
    }

    /// The guards, in the order of the requests.
    pub fn guards(&self) -> (guards: &Vec<ComponentGuard>)
        ensures
            component_requests(guards@) == self.requests(),
    {
        &self.components
    }

    /// Hands the guards and the borrow of the registry back.
    pub fn release<R, C>(self, world: &mut World<R, C>)
        requires
            old(world)@.wf(),
            old(world)@.component_lock >= 1,
            returnable_all(column_borrows(old(world)@.components), self.requests()),
        ensures
            final(world)@ == (WorldView {
                component_lock: (old(world)@.component_lock - 1) as usize,
                components: columns_with_borrows(
                    old(world)@.components,
                    returned_all(column_borrows(old(world)@.components), self.requests()),
                ),
                ..old(world)@
            }),
            final(world)@.wf(),
    {
        let QueryComponents { lock, components } = self;
        let cell = world.component_storage();
        release_components(cell.get_mut(), components);
        cell.release(lock);
        proof {
            assert(world@.components.dom() =~= old(world)@.components.dom());
            old(world)@.lemma_same_structure_wf(world@);
        }
    }
}

impl Query {
    /// The resource pack.
    pub closed spec fn resources(&self) -> Seq<Request> {
        self.resources@
    }

    /// The component pack.
    pub closed spec fn components(&self) -> Seq<Request> {
        self.components@
    }

    /// The query that takes the two packs.
    pub fn query(resources: Vec<Request>, components: Vec<Request>) -> (query: Self)
        ensures
            query.resources() == resources@,
            query.components() == components@,
    {
        Self { resources, components }
    }

    /// The error with which the resource pack cannot be taken from a world,
    /// if it cannot: the resource registry is borrowed exclusively, or a
    /// request of the pack is refused.
    pub open spec fn resources_error<R, C>(&self, world: WorldView<R, C>) -> Option<RetrievalError> {
        if is_exclusive(world.resource_lock) {
            Some(RetrievalError::ResourceLockedExclusive)
        } else {
            match first_refusal(slot_borrows(world.resources), self.resources()) {
                Some(refusal) => Some(resource_error(refusal)),
                None => None,
            }
        }
    }

    /// The error with which the component pack cannot be taken from a
    /// world, if it cannot: the component registry is borrowed exclusively,
    /// or a request of the pack is refused.
    pub open spec fn components_error<R, C>(&self, world: WorldView<R, C>) -> Option<RetrievalError> {
        if is_exclusive(world.component_lock) {
            Some(RetrievalError::ComponentLockedExclusive)
        } else {
            match first_refusal(column_borrows(world.components), self.components()) {
                Some(refusal) => Some(component_error(refusal)),
                None => None,
            }
        }
    }

    /// The world after the resource pack was taken.
    pub open spec fn with_resources_taken<R, C>(&self, world: WorldView<R, C>) -> WorldView<R, C> {
        WorldView {
            resource_lock: (world.resource_lock + 1) as usize,
            resources: slots_with_borrows(
                world.resources,
                granted_all(slot_borrows(world.resources), self.resources()),
            ),
            ..world
        }
    }

    /// The world after the component pack was taken.
    pub open spec fn with_components_taken<R, C>(&self, world: WorldView<R, C>) -> WorldView<R, C> {
        WorldView {
            component_lock: (world.component_lock + 1) as usize,
            components: columns_with_borrows(
                world.components,
                granted_all(column_borrows(world.components), self.components()),
            ),
            ..world
        }
    }

    /// Takes the resource pack: a shared borrow of the resource registry,
    /// then the guards. Where that fails, the world is as it was.
    pub fn fetch_resources<R, C>(&self, world: &mut World<R, C>) -> (res: Result<
        QueryResources,
        RetrievalError,
    >)
        ensures
            match res {
                Ok(taken) => self.resources_error(old(world)@).is_none() && taken.requests()
                    == self.resources() && final(world)@ == self.with_resources_taken(old(world)@),
                Err(error) => self.resources_error(old(world)@) == Some(error) && final(world)@
                    == old(world)@,
            },
            old(world)@.wf() ==> final(world)@.wf(),
    {
        let cell = world.resource_storage();
        let lock = match cell.try_borrow() {
            Some(lock) => lock,
            None => {
                return Err(RetrievalError::ResourceLockedExclusive);
            },
        };
        match fetch_resources(cell.get_mut(), &self.resources) {
            Ok(guards) => {
                proof {
                    if old(world)@.wf() {
                        old(world)@.lemma_same_structure_wf(world@);
                    }
                }
                Ok(QueryResources { lock, resources: guards })
            },
            Err(error) => {
                cell.release(lock);
                Err(error)
            },
        }
    }

    /// Takes the component pack: a shared borrow of the component registry,
    /// then the guards. Where that fails, the world is as it was.
    pub fn fetch_components<R, C>(&self, world: &mut World<R, C>) -> (res: Result<
        QueryComponents,
        RetrievalError,
    >)
        ensures
            match res {
                Ok(taken) => self.components_error(old(world)@).is_none() && taken.requests()
                    == self.components() && final(world)@ == self.with_components_taken(
                    old(world)@,
                ),
                Err(error) => self.components_error(old(world)@) == Some(error) && final(world)@
                    == old(world)@,
            },
            old(world)@.wf() ==> final(world)@.wf(),
    {
        let cell = world.component_storage();
        let lock = match cell.try_borrow() {
            Some(lock) => lock,
            None => {
                return Err(RetrievalError::ComponentLockedExclusive);
            },
        };
        match fetch_components(cell.get_mut(), &self.components) {
            Ok(guards) => {
                proof {
                    if old(world)@.wf() {
                        assert(world@.components.dom() =~= old(world)@.components.dom());
                        old(world)@.lemma_same_structure_wf(world@);
                    }
                }
                Ok(QueryComponents { lock, components: guards })
            },
            Err(error) => {
                cell.release(lock);
                Err(error)
            },
        }
    }

    /// Takes both packs, the resources first. Where either cannot be taken,
    /// the world is as it was.
    pub fn fetch<R, C>(&self, world: &mut World<R, C>) -> (res: Result<
        (QueryResources, QueryComponents),
        RetrievalError,
    >)
        ensures
            match res {
                Ok(taken) => self.resources_error(old(world)@).is_none() && self.components_error(
                    old(world)@,
                ).is_none() && taken.0.requests() == self.resources() && taken.1.requests()
                    == self.components() && final(world)@ == self.with_components_taken(
                    self.with_resources_taken(old(world)@),
                ),
                Err(error) => Some(error) == (match self.resources_error(old(world)@) {
                    Some(first) => Some(first),
                    None => self.components_error(old(world)@),
                }) && final(world)@ == old(world)@,
            },
            old(world)@.wf() ==> final(world)@.wf(),
    {
        let resources = match self.fetch_resources(world) {
            Ok(resources) => resources,
            Err(error) => {
                return Err(error);
            },
        };
        match self.fetch_components(world) {
            Ok(components) => Ok((resources, components)),
            Err(error) => {
                proof {
                    lemma_fetch_then_release(slot_borrows(old(world)@.resources), self.resources());
                    assert(slot_borrows(world@.resources) =~= granted_all(
                        slot_borrows(old(world)@.resources),
                        self.resources(),
                    ));
                }
                resources.release(world);
                assert(world@.resources =~= old(world)@.resources);
                Err(error)
            },
        }
    }

    /// The system that takes the packs of the query and runs `f` under
    /// them.
    pub fn build_system<F, R, C>(&self, f: F) -> (system: QuerySystem<F, R, C>) where
        F: Fn(
            &ResourceStorageAllocator<R>,
            &ComponentStorageAllocator<C>,
            &Vec<ResourceGuard>,
            &Vec<ComponentGuard>,
        ) -> Vec<Update<R, C>>,

        requires
            accepts_any::<F, R, C>(f),
        ensures
            system.function() == f,
            system.resource_pack() == self.resources(),
            system.component_pack() == self.components(),
    {
        QuerySystem::new(f, self.resources.clone(), self.components.clone())
    }
}

/// A change of one value, as a system asks for it.
#[derive(Debug)]
pub enum Update<R, C> {
    /// Put the value into the resource slot of the key.
    Resource(TypeKey, R),
    /// Put the value into the entry of the entity in the column of the key.
    Component(TypeKey, EntityId, C),
}

/// Whether `f` can be called on any two registries of which the component
/// registry is well formed.
pub open spec fn accepts_any<F, R, C>(f: F) -> bool where
    F: Fn(
        &ResourceStorageAllocator<R>,
        &ComponentStorageAllocator<C>,
        &Vec<ResourceGuard>,
        &Vec<ComponentGuard>,
    ) -> Vec<Update<R, C>>,
 {
    forall|
        resources: &ResourceStorageAllocator<R>,
        components: &ComponentStorageAllocator<C>,
        resource_guards: &Vec<ResourceGuard>,
        component_guards: &Vec<ComponentGuard>,
    |
        components.wf() ==> #[trigger] call_requires(
            f,
            (resources, components, resource_guards, component_guards),
        )
}

/// The exclusive guard over the slot of `key` among `guards`, if there is
/// one.
fn resource_write_guard(guards: &Vec<ResourceGuard>, key: TypeKey) -> (guard: Option<&WriteResource>)
    ensures
        guard.is_some() == resource_requests(guards@).contains(Request::Write(key)),
        guard matches Some(guard) ==> guard.key() == key,
{
    let mut i: usize = 0;
    while i < guards.len()
        invariant
            i <= guards@.len(),
            forall|j: int| 0 <= j < i ==> resource_requests(guards@)[j] != Request::Write(key),
        decreases guards@.len() - i,
    {
        match &guards[i] {
            ResourceGuard::Write(guard) => {
                if guard.type_key() == key {
                    assert(resource_requests(guards@)[i as int] == Request::Write(key));
                    return Some(guard);
                }
            },
            ResourceGuard::Read(_) => {},
        }
        i += 1;
    }
    None
}

/// The exclusive guard over the column of `key` among `guards`, if there
/// is one.
fn component_write_guard(guards: &Vec<ComponentGuard>, key: TypeKey) -> (guard: Option<
    &WriteComponent,
>)
    ensures
        guard.is_some() == component_requests(guards@).contains(Request::Write(key)),
        guard matches Some(guard) ==> guard.key() == key,
{
    let mut i: usize = 0;
    while i < guards.len()
        invariant
            i <= guards@.len(),
            forall|j: int| 0 <= j < i ==> component_requests(guards@)[j] != Request::Write(key),
        decreases guards@.len() - i,
    {
        match &guards[i] {
            ComponentGuard::Write(guard) => {
                if guard.type_key() == key {
                    assert(component_requests(guards@)[i as int] == Request::Write(key));
                    return Some(guard);
                }
            },
            ComponentGuard::Read(_) => {},
        }
        i += 1;
    }
    None
}

/// Makes one change, where the pack holds the exclusive guard for it and
/// the slot or entry exists; else nothing changes.
fn apply<R, C>(
    resources: &mut ResourceStorageAllocator<R>,
    components: &mut ComponentStorageAllocator<C>,
    resource_guards: &Vec<ResourceGuard>,
    component_guards: &Vec<ComponentGuard>,
    update: Update<R, C>,
)
    requires
        old(components).wf(),
    ensures
        final(components).wf(),
        slots_kept(old(resources)@, final(resources)@),
        columns_kept(old(components)@, final(components)@),
        (final(resources)@, final(components)@) == applied(
            (old(resources)@, old(components)@),
            resource_requests(resource_guards@),
            component_requests(component_guards@),
            update,
        ),
{
    match update {
        Update::Resource(key, value) => {
            match resource_write_guard(resource_guards, key) {
                Some(guard) => {
                    match resources.resource_mut(guard) {
                        Some(slot) => {
                            *slot = value;
                        },
                        None => {},
                    }
                    assert(resources@.dom() =~= old(resources)@.dom());
                },
                None => {},
            }
        },
        Update::Component(key, id, value) => {
            match component_write_guard(component_guards, key) {
                Some(guard) => {
                    match components.storage_mut(guard) {
                        Some(column) => {
                            match column.get_item_mut(id) {
                                Some(entry) => {
                                    *entry = value;
                                },
                                None => {},
                            }
                        },
                        None => {},
                    }
                    assert(components@.dom() =~= old(components)@.dom());
                },
                None => {},
            }
        },
    }
}

/// A system made of a function and the two packs that it runs under. The
/// function reads what the packs borrow and returns the changes that it
/// asks for; the system makes those for which the pack holds an exclusive
/// guard, in their order.
#[verifier::reject_recursive_types(F)]
#[verifier::reject_recursive_types(R)]
#[verifier::reject_recursive_types(C)]
pub struct QuerySystem<F, R, C> where
    F: Fn(
        &ResourceStorageAllocator<R>,
        &ComponentStorageAllocator<C>,
        &Vec<ResourceGuard>,
        &Vec<ComponentGuard>,
    ) -> Vec<Update<R, C>>,
 {
    f: F,
    resources: Vec<Request>,
    components: Vec<Request>,
    _spooky: PhantomData<(R, C)>,
}

impl<F, R, C> QuerySystem<F, R, C> where
    F: Fn(
        &ResourceStorageAllocator<R>,
        &ComponentStorageAllocator<C>,
        &Vec<ResourceGuard>,
        &Vec<ComponentGuard>,
    ) -> Vec<Update<R, C>>,
 {
    #[verifier::type_invariant]
    spec fn inv(self) -> bool {
        accepts_any::<F, R, C>(self.f)
    }

    /// The function that the system runs.
    pub closed spec fn function(&self) -> F {
        self.f
    }

    /// The system that takes the two packs and runs `f` under them.
    pub fn new(f: F, resources: Vec<Request>, components: Vec<Request>) -> (system: Self)
        requires
            accepts_any::<F, R, C>(f),
        ensures
            system.function() == f,
            system.resource_pack() == resources@,
            system.component_pack() == components@,
    {
        Self { f, resources, components, _spooky: PhantomData }
    }
}

impl<F, R, C> System<R, C> for QuerySystem<F, R, C> where
    F: Fn(
        &ResourceStorageAllocator<R>,
        &ComponentStorageAllocator<C>,
        &Vec<ResourceGuard>,
        &Vec<ComponentGuard>,
    ) -> Vec<Update<R, C>>,
 {
    closed spec fn resource_pack(&self) -> Seq<Request> {
        self.resources@
    }

    closed spec fn component_pack(&self) -> Seq<Request> {
        self.components@
    }

    fn resources(&self) -> (pack: Vec<Request>) {
        self.resources.clone()
    }

    fn components(&self) -> (pack: Vec<Request>) {
        self.components.clone()
    }

    fn execute(
        &mut self,
        resources: &mut ResourceStorageAllocator<R>,
        components: &mut ComponentStorageAllocator<C>,
        resource_guards: &Vec<ResourceGuard>,
        component_guards: &Vec<ComponentGuard>,
    )
        ensures
            final(self).function() == old(self).function(),
            final(self).resource_pack() == old(self).resource_pack(),
            final(self).component_pack() == old(self).component_pack(),
            exists|updates: Vec<Update<R, C>>|
                call_ensures(
                    old(self).function(),
                    (&*old(resources), &*old(components), resource_guards, component_guards),
                    updates,
                ) && (final(resources)@, final(components)@) == applied_all(
                    (old(resources)@, old(components)@),
                    resource_requests(resource_guards@),
                    component_requests(component_guards@),
                    updates@,
                ),
    {
        proof {
            use_type_invariant(&*self);
        }
        let mut updates = (self.f)(&*resources, &*components, resource_guards, component_guards);
        let ghost returned = updates;
        let ghost all = updates@;
        let ghost resource_pack = resource_requests(resource_guards@);
        let ghost component_pack = component_requests(component_guards@);
        let ghost start = (old(resources)@, old(components)@);
        let mut pending: Vec<Update<R, C>> = Vec::new();
        while updates.len() > 0
            invariant
                resources@ == old(resources)@,
                components@ == old(components)@,
                updates@.len() + pending@.len() == all.len(),
                updates@ == all.take(updates@.len() as int),
                forall|j: int| 0 <= j < pending@.len() ==> pending@[j] == all[all.len() - 1 - j],
            decreases updates@.len(),
        {
            match updates.pop() {
                Some(update) => {
                    pending.push(update);
                },
                None => {},
            }
        }
        let ghost mut done: int = 0;
        proof {
            assert(all.take(0) =~= Seq::empty());
        }
        while pending.len() > 0
            invariant
                components.wf(),
                slots_kept(old(resources)@, resources@),
                columns_kept(old(components)@, components@),
                start == (old(resources)@, old(components)@),
                resource_pack == resource_requests(resource_guards@),
                component_pack == component_requests(component_guards@),
                0 <= done,
                done + pending@.len() == all.len(),
                forall|j: int| 0 <= j < pending@.len() ==> pending@[j] == all[all.len() - 1 - j],
                (resources@, components@) == applied_all(
                    start,
                    resource_pack,
                    component_pack,
                    all.take(done),
                ),
                unwritten_kept(old(resources)@, resources@, resource_pack),
                unwritten_kept(old(components)@, components@, component_pack),
            decreases pending@.len(),
        {
            let ghost slots = resources@;
            let ghost columns = components@;
            match pending.pop() {
                Some(update) => {
                    proof {
                        assert(update == all[done]);
                        assert(all.take(done + 1).drop_last() =~= all.take(done));
                        assert(all.take(done + 1).last() == update);
                    }
                    apply(resources, components, resource_guards, component_guards, update);
                    proof {
                        done = done + 1;
                    }
                },
                None => {},
            }
            proof {
                assert forall|key: TypeKey| #[trigger]
                    old(resources)@.contains_key(key) implies resources@[key].borrow == old(
                    resources,
                )@[key].borrow by {
                    assert(slots.contains_key(key));
                }
                assert forall|key: TypeKey|
                    #![trigger old(resources)@.contains_key(key)]
                    #![trigger resources@[key]]
                    old(resources)@.contains_key(key) && !resource_pack.contains(
                        Request::Write(key),
                    ) implies resources@[key] == old(resources)@[key] by {
                    assert(slots.contains_key(key));
                    assert(resources@[key] == slots[key]);
                }
                assert forall|key: TypeKey|
                    #![trigger old(components)@.contains_key(key)]
                    #![trigger components@[key]]
                    old(components)@.contains_key(key) && !component_pack.contains(
                        Request::Write(key),
                    ) implies components@[key] == old(components)@[key] by {
                    assert(columns.contains_key(key));
                    assert(components@[key] == columns[key]);
                }
                assert forall|key: TypeKey| #[trigger]
                    old(components)@.contains_key(key) implies components@[key].borrow == old(
                    components,
                )@[key].borrow && components@[key].ids == old(components)@[key].ids
                    && components@[key].values.len() == old(components)@[key].values.len() by {
                    assert(columns.contains_key(key));
                }
            }
        }
        proof {
            assert(all.take(all.len() as int) =~= all);
            assert(call_ensures(
                old(self).function(),
                (&*old(resources), &*old(components), resource_guards, component_guards),
                returned,
            ));
        }
    }
}

/// The slots after the value of the slot of `key` was changed, which
/// happens where the pack holds the exclusive guard over the key and the
/// slot is registered.
pub open spec fn slot_updated<R>(
    slots: Map<TypeKey, SlotView<R>>,
    pack: Seq<Request>,
    key: TypeKey,
    value: R,
) -> Map<TypeKey, SlotView<R>> {
    if pack.contains(Request::Write(key)) && slots.contains_key(key) {
        slots.insert(key, SlotView { borrow: slots[key].borrow, value })
    } else {
        slots
    }
}

/// The columns after the value of the entry of `id` in the column of `key`
/// was changed, which happens where the pack holds the exclusive guard
/// over the key and the column has an entry for `id`.
pub open spec fn entry_updated<C>(
    columns: Map<TypeKey, ColumnView<C>>,
    pack: Seq<Request>,
    key: TypeKey,
    id: EntityId,
    value: C,
) -> Map<TypeKey, ColumnView<C>> {
    if pack.contains(Request::Write(key)) && columns.contains_key(key) && columns[key].ids.contains(
        id,
    ) {
        columns.insert(
            key,
            ColumnView {
                borrow: columns[key].borrow,
                ids: columns[key].ids,
                values: columns[key].values.update(columns[key].ids.index_of(id), value),
            },
        )
    } else {
        columns
    }
}

/// The slots and columns after one change was made under the two packs.
pub open spec fn applied<R, C>(
    state: (Map<TypeKey, SlotView<R>>, Map<TypeKey, ColumnView<C>>),
    resource_pack: Seq<Request>,
    component_pack: Seq<Request>,
    update: Update<R, C>,
) -> (Map<TypeKey, SlotView<R>>, Map<TypeKey, ColumnView<C>>) {
    match update {
        Update::Resource(key, value) => (slot_updated(state.0, resource_pack, key, value), state.1),
        Update::Component(key, id, value) => (
            state.0,
            entry_updated(state.1, component_pack, key, id, value),
        ),
    }
}

/// The slots and columns after the changes were made, in their order.
pub open spec fn applied_all<R, C>(
    state: (Map<TypeKey, SlotView<R>>, Map<TypeKey, ColumnView<C>>),
    resource_pack: Seq<Request>,
    component_pack: Seq<Request>,
    updates: Seq<Update<R, C>>,
) -> (Map<TypeKey, SlotView<R>>, Map<TypeKey, ColumnView<C>>)
    decreases updates.len(),
{
    if updates.len() == 0 {
        state
    } else {
        applied(
            applied_all(state, resource_pack, component_pack, updates.drop_last()),
            resource_pack,
            component_pack,
            updates.last(),
        )
    }
}

} // verus!
