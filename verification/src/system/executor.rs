//! Executors: systems made ready to run against the two registries.

use vstd::prelude::*;

use crate::cell::{is_exclusive, AtomicRef, AtomicRefCell};
use crate::component::TypeKey;
use crate::storage::component::{ColumnView, ComponentStorageAllocator};
use crate::storage::resource::{ResourceStorageAllocator, SlotView};
use crate::system::{
    column_borrows, columns_kept, columns_with_borrows, component_error, component_requests,
    fetch_components, fetch_resources, first_refusal, granted_all, lemma_fetch_then_release,
    release_components, release_resources, resource_error, resource_requests, returnable_all,
    returned_all, slot_borrows, slots_kept, slots_with_borrows, unwritten_kept, ComponentGuard,
    Request, ResourceGuard, RetrievalError, System,
};

verus! {

/// Everything that one run of a system holds: a shared borrow of each
/// registry, and the guards of its two packs.
#[derive(Debug)]
#[must_use]
pub struct Acquired {
    resource_lock: AtomicRef,
    component_lock: AtomicRef,
    resources: Vec<ResourceGuard>,
    components: Vec<ComponentGuard>,
}

impl Acquired {
    /// The resource requests that were granted.
    pub closed spec fn resource_requests(&self) -> Seq<Request> {
        resource_requests(self.resources@)
    }

    /// The component requests that were granted.
    pub closed spec fn component_requests(&self) -> Seq<Request> {
        component_requests(self.components@)
    }

    /// The guards of the resource pack, in the order of the requests.
    pub fn resource_guards(&self) -> (guards: &Vec<ResourceGuard>)
        ensures
            resource_requests(guards@) == self.resource_requests(),
    {
        &self.resources
    }

    /// The guards of the component pack, in the order of the requests.
    pub fn component_guards(&self) -> (guards: &Vec<ComponentGuard>)
        ensures
            component_requests(guards@) == self.component_requests(),
    {
        &self.components
    }
}

/// The error with which a run fails before it starts, if it does: a
/// registry that is borrowed exclusively comes first, the resource registry
/// before the component registry; then the first request of the resource
/// pack that is refused; then the first of the component pack.
pub open spec fn acquire_error<R, C>(
    resource_lock: usize,
    slots: Map<TypeKey, SlotView<R>>,
    component_lock: usize,
    columns: Map<TypeKey, ColumnView<C>>,
    resource_pack: Seq<Request>,
    component_pack: Seq<Request>,
) -> Option<RetrievalError> {
    if is_exclusive(resource_lock) {
        Some(RetrievalError::ResourceLockedExclusive)
    } else if is_exclusive(component_lock) {
        Some(RetrievalError::ComponentLockedExclusive)
    } else {
        match first_refusal(slot_borrows(slots), resource_pack) {
            Some(refusal) => Some(resource_error(refusal)),
            None => match first_refusal(column_borrows(columns), component_pack) {
                Some(refusal) => Some(component_error(refusal)),
                None => None,
            },
        }
    }
}

/// Takes what a run needs: a shared borrow of each registry, then the
/// guards of the resource pack, then those of the component pack. Where a
/// step fails, what was taken before it is handed back, and the registries
/// are as they were.
pub fn acquire<R, C>(
    resources: &mut AtomicRefCell<ResourceStorageAllocator<R>>,
    components: &mut AtomicRefCell<ComponentStorageAllocator<C>>,
    resource_pack: &Vec<Request>,
    component_pack: &Vec<Request>,
) -> (res: Result<Acquired, RetrievalError>)
    ensures
        res.is_err() == acquire_error(
            old(resources).state(),
            old(resources).value()@,
            old(components).state(),
            old(components).value()@,
            resource_pack@,
            component_pack@,
        ).is_some(),
        match res {
            Ok(acquired) => {
                &&& acquired.resource_requests() == resource_pack@
                &&& acquired.component_requests() == component_pack@
                &&& final(resources).state() == old(resources).state() + 1
                &&& final(components).state() == old(components).state() + 1
                &&& final(resources).value()@ == slots_with_borrows(
                    old(resources).value()@,
                    granted_all(slot_borrows(old(resources).value()@), resource_pack@),
                )
                &&& final(components).value()@ == columns_with_borrows(
                    old(components).value()@,
                    granted_all(column_borrows(old(components).value()@), component_pack@),
                )
            },
            Err(error) => {
                &&& Some(error) == acquire_error(
                    old(resources).state(),
                    old(resources).value()@,
                    old(components).state(),
                    old(components).value()@,
                    resource_pack@,
                    component_pack@,
                )
                &&& final(resources).state() == old(resources).state()
                &&& final(components).state() == old(components).state()
                &&& final(resources).value()@ == old(resources).value()@
                &&& final(components).value()@ == old(components).value()@
            },
        },
{
    let resource_lock = match resources.try_borrow() {
        Some(lock) => lock,
        None => {
            return Err(RetrievalError::ResourceLockedExclusive);
        },
    };
    let component_lock = match components.try_borrow() {
        Some(lock) => lock,
        None => {
            resources.release(resource_lock);
            return Err(RetrievalError::ComponentLockedExclusive);
        },
    };
    let resource_guards = match fetch_resources(resources.get_mut(), resource_pack) {
        Ok(guards) => guards,
        Err(error) => {
            components.release(component_lock);
            resources.release(resource_lock);
            return Err(error);
        },
    };
    let component_guards = match fetch_components(components.get_mut(), component_pack) {
        Ok(guards) => guards,
        Err(error) => {
            proof {
                lemma_fetch_then_release(slot_borrows(old(resources).value()@), resource_pack@);
                assert(slot_borrows(resources.value()@) =~= granted_all(
                    slot_borrows(old(resources).value()@),
                    resource_pack@,
                ));
            }
            release_resources(resources.get_mut(), resource_guards);
            assert(resources.value()@ =~= old(resources).value()@);
            components.release(component_lock);
            resources.release(resource_lock);
            return Err(error);
        },
    };
    Ok(
        Acquired {
            resource_lock,
            component_lock,
            resources: resource_guards,
            components: component_guards,
        },
    )
}

/// Hands back what a run holds: the guards of the component pack, those
/// of the resource pack, and the shared borrow of each registry.
pub fn release<R, C>(
    resources: &mut AtomicRefCell<ResourceStorageAllocator<R>>,
    components: &mut AtomicRefCell<ComponentStorageAllocator<C>>,
    acquired: Acquired,
)
    requires
        old(resources).state() >= 1,
        old(components).state() >= 1,
        returnable_all(slot_borrows(old(resources).value()@), acquired.resource_requests()),
        returnable_all(column_borrows(old(components).value()@), acquired.component_requests()),
    ensures
        final(resources).state() == old(resources).state() - 1,
        final(components).state() == old(components).state() - 1,
        final(resources).value()@ == slots_with_borrows(
            old(resources).value()@,
            returned_all(slot_borrows(old(resources).value()@), acquired.resource_requests()),
        ),
        final(components).value()@ == columns_with_borrows(
            old(components).value()@,
            returned_all(column_borrows(old(components).value()@), acquired.component_requests()),
        ),
{
    let Acquired { resource_lock, component_lock, resources: resource_guards, components: component_guards } =
        acquired;
    release_components(components.get_mut(), component_guards);
    release_resources(resources.get_mut(), resource_guards);
    components.release(component_lock);
    resources.release(resource_lock);
}

/// A system made ready to run: it owns the system and runs it against the
/// two registries of a world.
#[derive(Debug)]
pub struct SystemExecutor<S> {
    system: S,
}

impl<S> SystemExecutor<S> {
    /// The system that the executor owns.
    pub closed spec fn system(&self) -> S {
        self.system
    }

    /// Takes `system` over.
    pub fn new(system: S) -> (executor: Self)
        ensures
            executor.system() == system,
    {
        Self { system }
    }

    /// The system, to look at.
    pub fn get(&self) -> (system: &S)
        ensures
            *system == self.system(),
    {
        &self.system
    }

    /// Gives the system back.
    pub fn into_inner(self) -> (system: S)
        ensures
            system == self.system(),
    {
        self.system
    }

    /// Runs the system once: asks it for its two packs, takes what the run
    /// needs, calls the system, and hands everything back. Where taking
    /// fails, the system is not called and nothing has changed. Either way
    /// the borrow counters are afterwards what they were, and the system can
    /// have changed values only.
    pub fn execute<R, C>(
        &mut self,
        resources: &mut AtomicRefCell<ResourceStorageAllocator<R>>,
        components: &mut AtomicRefCell<ComponentStorageAllocator<C>>,
    ) -> (res: Result<(), RetrievalError>) where S: System<R, C>
        requires
            old(components).value().wf(),
        ensures
            final(resources).state() == old(resources).state(),
            final(components).state() == old(components).state(),
            slots_kept(old(resources).value()@, final(resources).value()@),
            columns_kept(old(components).value()@, final(components).value()@),
            final(components).value().wf(),
            unwritten_kept(
                old(resources).value()@,
                final(resources).value()@,
                old(self).system().resource_pack(),
            ),
            unwritten_kept(
                old(components).value()@,
                final(components).value()@,
                old(self).system().component_pack(),
            ),
            res.err() == acquire_error(
                old(resources).state(),
                old(resources).value()@,
                old(components).state(),
                old(components).value()@,
                old(self).system().resource_pack(),
                old(self).system().component_pack(),
            ),
            res.is_err() ==> *final(self) == *old(self) && final(resources).value()@ == old(
                resources,
            ).value()@ && final(components).value()@ == old(components).value()@,
            res.is_ok() ==> exists|
                system: &mut S,
                slots: &mut ResourceStorageAllocator<R>,
                columns: &mut ComponentStorageAllocator<C>,
                resource_guards: &Vec<ResourceGuard>,
                component_guards: &Vec<ComponentGuard>,
            |
                #![trigger call_ensures(
                    <S as System<R, C>>::execute,
                    (system, slots, columns, resource_guards, component_guards),
                    (),
                )]
                call_ensures(
                    <S as System<R, C>>::execute,
                    (system, slots, columns, resource_guards, component_guards),
                    (),
                ) && *system == old(self).system() && *final(system) == final(self).system()
                    && resource_requests(resource_guards@) == old(self).system().resource_pack()
                    && component_requests(component_guards@) == old(
                    self,
                ).system().component_pack() && slots@ == slots_with_borrows(
                    old(resources).value()@,
                    granted_all(
                        slot_borrows(old(resources).value()@),
                        old(self).system().resource_pack(),
                    ),
                ) && columns@ == columns_with_borrows(
                    old(components).value()@,
                    granted_all(
                        column_borrows(old(components).value()@),
                        old(self).system().component_pack(),
                    ),
                ) && final(resources).value()@ == slots_with_borrows(
                    final(slots)@,
                    slot_borrows(old(resources).value()@),
                ) && final(components).value()@ == columns_with_borrows(
                    final(columns)@,
                    column_borrows(old(components).value()@),
                ),
    {
        let resource_pack = self.system.resources();
        let component_pack = self.system.components();
        match acquire(resources, components, &resource_pack, &component_pack) {
            Ok(acquired) => {
                let ghost slots = resources.value()@;
                let ghost columns = components.value()@;
                proof {
                    lemma_fetch_then_release(
                        slot_borrows(old(resources).value()@),
                        resource_pack@,
                    );
                    lemma_fetch_then_release(
                        column_borrows(old(components).value()@),
                        component_pack@,
                    );
                    assert(slot_borrows(slots) =~= granted_all(
                        slot_borrows(old(resources).value()@),
                        resource_pack@,
                    ));
                    assert(column_borrows(columns) =~= granted_all(
                        column_borrows(old(components).value()@),
                        component_pack@,
                    ));
                }
                let system = &mut self.system;
                let slots_mut = resources.get_mut();
                let columns_mut = components.get_mut();
                system.execute(
                    slots_mut,
                    columns_mut,
                    acquired.resource_guards(),
                    acquired.component_guards(),
                );
                proof {
                    assert(slot_borrows(resources.value()@) =~= slot_borrows(slots));
                    assert(column_borrows(components.value()@) =~= column_borrows(columns));
                }
                let ghost changed_slots = resources.value()@;
                let ghost changed_columns = components.value()@;
                release(resources, components, acquired);
                proof {
                    let slots_before = old(resources).value()@;
                    let columns_before = old(components).value()@;
                    assert(resources.value()@ == slots_with_borrows(
                        changed_slots,
                        slot_borrows(slots_before),
                    ));
                    assert(components.value()@ == columns_with_borrows(
                        changed_columns,
                        column_borrows(columns_before),
                    ));
                    assert(resources.value()@.dom() =~= slots_before.dom());
                    assert(components.value()@.dom() =~= columns_before.dom());
                    assert forall|key: TypeKey| #[trigger]
                        slots_before.contains_key(key) implies resources.value()@[key].borrow
                        == slots_before[key].borrow by {
                        assert(slots.contains_key(key));
                        assert(changed_slots.contains_key(key));
                    }
                    assert forall|key: TypeKey| #[trigger]
                        columns_before.contains_key(key) implies components.value()@[key].borrow
                        == columns_before[key].borrow && components.value()@[key].ids
                        == columns_before[key].ids && components.value()@[key].values.len()
                        == columns_before[key].values.len() by {
                        assert(columns.contains_key(key));
                        assert(changed_columns.contains_key(key));
                    }
                }
                Ok(())
            },
            Err(failure) => Err(failure),
        }
    }
}

} // verus!
