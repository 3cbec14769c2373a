//! Systems and the packs of borrows that they declare.

use vstd::prelude::*;

use crate::cell::MUTABLY_BORROWED;
use crate::component::TypeKey;
use crate::storage::component::{ColumnView, ComponentStorageAllocator};
use crate::storage::resource::{ResourceStorageAllocator, SlotView};
use crate::storage::{ReadComponent, ReadResource, WriteComponent, WriteResource};

pub mod dispatch;
pub mod executor;

verus! {

/// Why a fetch failed.
#[derive(Clone, Copy, PartialEq, Eq, Structural, PartialOrd, Ord, Debug, Hash)]
pub enum RetrievalError {
    /// The resource registry is borrowed exclusively.
    ResourceLockedExclusive,
    /// The resource registry is borrowed shared where it was needed alone.
    ResourceLockedShared,
    /// The slot of a requested resource cannot grant the borrow.
    ResourceStorageInUse,
    /// No resource of a requested type is registered.
    NoSuchResourceStorage,
    /// The component registry is borrowed exclusively.
    ComponentLockedExclusive,
    /// The component registry is borrowed shared where it was needed alone.
    ComponentLockedShared,
    /// The column of a requested component type cannot grant the borrow.
    ComponentStorageInUse,
    /// No column of a requested component type is registered.
    NoSuchComponentStorage,
}

impl RetrievalError {
    /// The sentence that describes the error.
    pub open spec fn text(self) -> Seq<char> {
        match self {
            RetrievalError::ResourceLockedExclusive =>
                "The world resource allocator is currently locked (W)."@,
            RetrievalError::ResourceLockedShared =>
                "The world resource allocator is currently locked (R)."@,
            RetrievalError::ResourceStorageInUse =>
                "The requested resource storage is currently in use."@,
            RetrievalError::NoSuchResourceStorage =>
                "No storage has been registered for the requested resource."@,
            RetrievalError::ComponentLockedExclusive =>
                "The world component allocator is currently locked (W)."@,
            RetrievalError::ComponentLockedShared =>
                "The world component allocator is currently locked (R)."@,
            RetrievalError::ComponentStorageInUse =>
                "The requested component storage is currently in use."@,
            RetrievalError::NoSuchComponentStorage =>
                "No storage has been registered for the requested component"@,
        }
    }

    /// The sentence that describes the error.
    pub fn message(&self) -> (msg: &'static str)
        ensures
            msg@ == self.text(),
    {
        match *self {
            RetrievalError::ResourceLockedExclusive =>
                "The world resource allocator is currently locked (W).",
            RetrievalError::ResourceLockedShared =>
                "The world resource allocator is currently locked (R).",
            RetrievalError::ResourceStorageInUse =>
                "The requested resource storage is currently in use.",
            RetrievalError::NoSuchResourceStorage =>
                "No storage has been registered for the requested resource.",
            RetrievalError::ComponentLockedExclusive =>
                "The world component allocator is currently locked (W).",
            RetrievalError::ComponentLockedShared =>
                "The world component allocator is currently locked (R).",
            RetrievalError::ComponentStorageInUse =>
                "The requested component storage is currently in use.",
            RetrievalError::NoSuchComponentStorage =>
                "No storage has been registered for the requested component",
        }
    }
}

/// One entry of a pack: the borrow of one slot or column, shared or
/// exclusive.
#[derive(Clone, Copy, PartialEq, Eq, Structural, Debug)]
pub enum Request {
    /// A shared borrow of what is registered under the key.
    Read(TypeKey),
    /// An exclusive borrow of what is registered under the key.
    Write(TypeKey),
}

impl Request {
    /// The key that the request names.
    pub open spec fn key(self) -> TypeKey {
        match self {
            Request::Read(key) => key,
            Request::Write(key) => key,
        }
    }

    /// The key that the request names.
    pub fn type_key(&self) -> (key: TypeKey)
        ensures
            key == self.key(),
    {
        match *self {
            Request::Read(key) => key,
            Request::Write(key) => key,
        }
    }
}

/// Why a registry turns a request down.
pub enum Refusal {
    /// Nothing is registered under the key.
    Missing,
    /// The cell under the key cannot grant the borrow.
    InUse,
}

/// Whether, and why, a registry whose borrow counters are `table` turns
/// `request` down.
pub open spec fn refusal(table: Map<TypeKey, usize>, request: Request) -> Option<Refusal> {
    if !table.contains_key(request.key()) {
        Some(Refusal::Missing)
    } else {
        match request {
            Request::Read(key) => if table[key] == MUTABLY_BORROWED {
                Some(Refusal::InUse)
            } else {
                None
            },
            Request::Write(key) => if table[key] != 0 {
                Some(Refusal::InUse)
            } else {
                None
            },
        }
    }
}

/// The borrow counters after `request` was granted.
pub open spec fn granted(table: Map<TypeKey, usize>, request: Request) -> Map<TypeKey, usize> {
    match request {
        Request::Read(key) => table.insert(key, (table[key] + 1) as usize),
        Request::Write(key) => table.insert(key, MUTABLY_BORROWED),
    }
}

/// Whether a guard that was granted for `request` can be handed back.
pub open spec fn returnable(table: Map<TypeKey, usize>, request: Request) -> bool {
    &&& table.contains_key(request.key())
    &&& match request {
        Request::Read(key) => table[key] >= 1,
        Request::Write(key) => table[key] == MUTABLY_BORROWED,
    }
}

/// The borrow counters after a guard that was granted for `request` was
/// handed back.
pub open spec fn returned(table: Map<TypeKey, usize>, request: Request) -> Map<TypeKey, usize> {
    match request {
        Request::Read(key) => table.insert(key, (table[key] - 1) as usize),
        Request::Write(key) => table.insert(key, 0),
    }
}

/// The borrow counters after the requests were granted one after the
/// other.
pub open spec fn granted_all(table: Map<TypeKey, usize>, requests: Seq<Request>) -> Map<TypeKey, usize>
    decreases requests.len(),
{
    if requests.len() == 0 {
        table
    } else {
        granted(granted_all(table, requests.drop_last()), requests.last())
    }
}

/// The refusal of the first request that cannot be granted, the ones before
/// it having been granted.
pub open spec fn first_refusal(table: Map<TypeKey, usize>, requests: Seq<Request>) -> Option<Refusal>
    decreases requests.len(),
{
    if requests.len() == 0 {
        None
    } else {
        match first_refusal(table, requests.drop_last()) {
            Some(refusal) => Some(refusal),
            None => refusal(granted_all(table, requests.drop_last()), requests.last()),
        }
    }
}

/// Whether the guards of `requests` can be handed back, the last first.
pub open spec fn returnable_all(table: Map<TypeKey, usize>, requests: Seq<Request>) -> bool
    decreases requests.len(),
{
    if requests.len() == 0 {
        true
    } else {
        returnable(table, requests.last()) && returnable_all(
            returned(table, requests.last()),
            requests.drop_last(),
        )
    }
}

/// The borrow counters after the guards of `requests` were handed back, the
/// last first.
pub open spec fn returned_all(table: Map<TypeKey, usize>, requests: Seq<Request>) -> Map<
    TypeKey,
    usize,
>
    decreases requests.len(),
{
    if requests.len() == 0 {
        table
    } else {
        returned_all(returned(table, requests.last()), requests.drop_last())
    }
}

/// A granted request can be handed back, and the counters are then what
/// they were.
pub proof fn lemma_grant_then_return(table: Map<TypeKey, usize>, request: Request)
    requires
        refusal(table, request).is_none(),
    ensures
        returnable(granted(table, request), request),
        returned(granted(table, request), request) == table,
        granted(table, request).dom() == table.dom(),
{
    assert(returned(granted(table, request), request) =~= table);
    assert(granted(table, request).dom() =~= table.dom());
}

/// A granted pack can be handed back, the last guard first, and the
/// counters are then what they were before the fetch.
pub proof fn lemma_fetch_then_release(table: Map<TypeKey, usize>, requests: Seq<Request>)
    requires
        first_refusal(table, requests).is_none(),
    ensures
        returnable_all(granted_all(table, requests), requests),
        returned_all(granted_all(table, requests), requests) == table,
        granted_all(table, requests).dom() == table.dom(),
    decreases requests.len(),
{
    if requests.len() > 0 {
        lemma_fetch_then_release(table, requests.drop_last());
        lemma_grant_then_return(granted_all(table, requests.drop_last()), requests.last());
    }
}

/// Handing guards back changes counters only.
pub proof fn lemma_returned_all_dom(table: Map<TypeKey, usize>, requests: Seq<Request>)
    requires
        returnable_all(table, requests),
    ensures
        returned_all(table, requests).dom() == table.dom(),
    decreases requests.len(),
{
    if requests.len() > 0 {
        assert(returned(table, requests.last()).dom() =~= table.dom());
        lemma_returned_all_dom(returned(table, requests.last()), requests.drop_last());
    }
}

/// The error by which the resource registry reports a refusal.
pub open spec fn resource_error(refusal: Refusal) -> RetrievalError {
    match refusal {
        Refusal::Missing => RetrievalError::NoSuchResourceStorage,
        Refusal::InUse => RetrievalError::ResourceStorageInUse,
    }
}

/// The error by which the component registry reports a refusal.
pub open spec fn component_error(refusal: Refusal) -> RetrievalError {
    match refusal {
        Refusal::Missing => RetrievalError::NoSuchComponentStorage,
        Refusal::InUse => RetrievalError::ComponentStorageInUse,
    }
}

/// The borrow counters of the slots.
pub open spec fn slot_borrows<R>(slots: Map<TypeKey, SlotView<R>>) -> Map<TypeKey, usize> {
    slots.map_values(|slot: SlotView<R>| slot.borrow)
}

/// The slots with their borrow counters set to those of `table`.
pub open spec fn slots_with_borrows<R>(
    slots: Map<TypeKey, SlotView<R>>,
    table: Map<TypeKey, usize>,
) -> Map<TypeKey, SlotView<R>> {
    Map::new(|key: TypeKey| slots.contains_key(key), |key: TypeKey| slots[key].with_borrow(table[key]))
}

/// The borrow counters of the columns.
pub open spec fn column_borrows<C>(columns: Map<TypeKey, ColumnView<C>>) -> Map<TypeKey, usize> {
    columns.map_values(|column: ColumnView<C>| column.borrow)
}

/// The columns with their borrow counters set to those of `table`.
pub open spec fn columns_with_borrows<C>(
    columns: Map<TypeKey, ColumnView<C>>,
    table: Map<TypeKey, usize>,
) -> Map<TypeKey, ColumnView<C>> {
    Map::new(
        |key: TypeKey| columns.contains_key(key),
        |key: TypeKey| columns[key].with_borrow(table[key]),
    )
}

/// A guard over one resource slot, shared or exclusive.
#[derive(Debug)]
#[must_use]
pub enum ResourceGuard {
    /// A shared guard.
    Read(ReadResource),
    /// The exclusive guard.
    Write(WriteResource),
}

impl ResourceGuard {
    /// The request that the guard was granted for.
    pub open spec fn request(self) -> Request {
        match self {
            ResourceGuard::Read(guard) => Request::Read(guard.key()),
            ResourceGuard::Write(guard) => Request::Write(guard.key()),
        }
    }
}

/// A guard over one component column, shared or exclusive.
#[derive(Debug)]
#[must_use]
pub enum ComponentGuard {
    /// A shared guard.
    Read(ReadComponent),
    /// The exclusive guard.
    Write(WriteComponent),
}

impl ComponentGuard {
    /// The request that the guard was granted for.
    pub open spec fn request(self) -> Request {
        match self {
            ComponentGuard::Read(guard) => Request::Read(guard.key()),
            ComponentGuard::Write(guard) => Request::Write(guard.key()),
        }
    }
}

/// The requests that a pack of resource guards was granted for.
pub open spec fn resource_requests(guards: Seq<ResourceGuard>) -> Seq<Request> {
    guards.map_values(|guard: ResourceGuard| guard.request())
}

/// The requests that a pack of component guards was granted for.
pub open spec fn component_requests(guards: Seq<ComponentGuard>) -> Seq<Request> {
    guards.map_values(|guard: ComponentGuard| guard.request())
}

/// Guards that can be fetched from the resource registry.
pub trait ResourceData: Sized {
    /// The request that a guard of this kind over `key` stands for.
    spec fn request_for(key: TypeKey) -> Request;

    /// The key that the guard is over.
    spec fn guarded(&self) -> TypeKey;

    /// Borrows the slot of `key`: fails with `NoSuchResourceStorage` where
    /// none is registered, and with `ResourceStorageInUse` where its cell
    /// cannot grant the borrow.
    fn fetch<R>(allocator: &mut ResourceStorageAllocator<R>, key: TypeKey) -> (res: Result<
        Self,
        RetrievalError,
    >)
        ensures
            match res {
                Ok(guard) => refusal(slot_borrows(old(allocator)@), Self::request_for(key)).is_none()
                    && guard.guarded() == key && final(allocator)@ == slots_with_borrows(
                    old(allocator)@,
                    granted(slot_borrows(old(allocator)@), Self::request_for(key)),
                ),
                Err(error) => refusal(slot_borrows(old(allocator)@), Self::request_for(key))
                    matches Some(refusal) && error == resource_error(refusal) && final(allocator)@
                    == old(allocator)@,
            },
    ;
}

impl ResourceData for ReadResource {
    open spec fn request_for(key: TypeKey) -> Request {
        Request::Read(key)
    }

    open spec fn guarded(&self) -> TypeKey {
        self.key()
    }

    fn fetch<R>(allocator: &mut ResourceStorageAllocator<R>, key: TypeKey) -> (res: Result<
        Self,
        RetrievalError,
    >) {
        if allocator.contains(key) {
            match allocator.try_get(key) {
                Some(guard) => {
                    assert(allocator@ =~= slots_with_borrows(
                        old(allocator)@,
                        granted(slot_borrows(old(allocator)@), Request::Read(key)),
                    ));
                    Ok(guard)
                },
                None => Err(RetrievalError::ResourceStorageInUse),
            }
        } else {
            Err(RetrievalError::NoSuchResourceStorage)
        }
    }
}

impl ResourceData for WriteResource {
    open spec fn request_for(key: TypeKey) -> Request {
        Request::Write(key)
    }

    open spec fn guarded(&self) -> TypeKey {
        self.key()
    }

    fn fetch<R>(allocator: &mut ResourceStorageAllocator<R>, key: TypeKey) -> (res: Result<
        Self,
        RetrievalError,
    >) {
        if allocator.contains(key) {
            match allocator.try_get_mut(key) {
                Some(guard) => {
                    assert(allocator@ =~= slots_with_borrows(
                        old(allocator)@,
                        granted(slot_borrows(old(allocator)@), Request::Write(key)),
                    ));
                    Ok(guard)
                },
                None => Err(RetrievalError::ResourceStorageInUse),
            }
        } else {
            Err(RetrievalError::NoSuchResourceStorage)
        }
    }
}

/// Guards that can be fetched from the component registry.
pub trait ComponentData: Sized {
    /// The request that a guard of this kind over `key` stands for.
    spec fn request_for(key: TypeKey) -> Request;

    /// The key that the guard is over.
    spec fn guarded(&self) -> TypeKey;

    /// Borrows the column of `key`: fails with `NoSuchComponentStorage`
    /// where none is registered, and with `ComponentStorageInUse` where its
    /// cell cannot grant the borrow.
    fn fetch<C>(allocator: &mut ComponentStorageAllocator<C>, key: TypeKey) -> (res: Result<
        Self,
        RetrievalError,
    >)
        ensures
            match res {
                Ok(guard) => refusal(column_borrows(old(allocator)@), Self::request_for(key)).is_none()
                    && guard.guarded() == key && final(allocator)@ == columns_with_borrows(
                    old(allocator)@,
                    granted(column_borrows(old(allocator)@), Self::request_for(key)),
                ),
                Err(error) => refusal(column_borrows(old(allocator)@), Self::request_for(key))
                    matches Some(refusal) && error == component_error(refusal) && final(allocator)@
                    == old(allocator)@,
            },
    ;
}

impl ComponentData for ReadComponent {
    open spec fn request_for(key: TypeKey) -> Request {
        Request::Read(key)
    }

    open spec fn guarded(&self) -> TypeKey {
        self.key()
    }

    fn fetch<C>(allocator: &mut ComponentStorageAllocator<C>, key: TypeKey) -> (res: Result<
        Self,
        RetrievalError,
    >) {
        if allocator.contains(key) {
            match allocator.try_get(key) {
                Some(guard) => {
                    assert(allocator@ =~= columns_with_borrows(
                        old(allocator)@,
                        granted(column_borrows(old(allocator)@), Request::Read(key)),
                    ));
                    Ok(guard)
                },
                None => Err(RetrievalError::ComponentStorageInUse),
            }
        } else {
            Err(RetrievalError::NoSuchComponentStorage)
        }
    }
}

impl ComponentData for WriteComponent {
    open spec fn request_for(key: TypeKey) -> Request {
        Request::Write(key)
    }

    open spec fn guarded(&self) -> TypeKey {
        self.key()
    }

    fn fetch<C>(allocator: &mut ComponentStorageAllocator<C>, key: TypeKey) -> (res: Result<
        Self,
        RetrievalError,
    >) {
        if allocator.contains(key) {
            match allocator.try_get_mut(key) {
                Some(guard) => {
                    assert(allocator@ =~= columns_with_borrows(
                        old(allocator)@,
                        granted(column_borrows(old(allocator)@), Request::Write(key)),
                    ));
                    Ok(guard)
                },
                None => Err(RetrievalError::ComponentStorageInUse),
            }
        } else {
            Err(RetrievalError::NoSuchComponentStorage)
        }
    }
}

/// Once a request of a pack is refused, the requests behind it do not
/// matter.
pub proof fn lemma_first_refusal_prefix(table: Map<TypeKey, usize>, requests: Seq<Request>, n: int)
    requires
        0 <= n <= requests.len(),
        first_refusal(table, requests.take(n)).is_some(),
    ensures
        first_refusal(table, requests) == first_refusal(table, requests.take(n)),
    decreases requests.len(),
{
    if n == requests.len() {
        assert(requests.take(n) == requests);
    } else {
        assert(requests.drop_last().take(n) == requests.take(n));
        lemma_first_refusal_prefix(table, requests.drop_last(), n);
    }
}

/// Fetches the guard of one request from the resource registry.
fn fetch_resource<T>(allocator: &mut ResourceStorageAllocator<T>, request: Request) -> (res: Result<ResourceGuard, RetrievalError>)
    ensures
        match res {
            Ok(guard) => refusal(slot_borrows(old(allocator)@), request).is_none() && guard.request()
                == request && final(allocator)@ == slots_with_borrows(
                old(allocator)@,
                granted(slot_borrows(old(allocator)@), request),
            ),
            Err(error) => refusal(slot_borrows(old(allocator)@), request) matches Some(refusal)
                && error == resource_error(refusal) && final(allocator)@ == old(allocator)@,
        },
{
    match request {
        Request::Read(key) => match ReadResource::fetch(allocator, key) {
            Ok(guard) => Ok(ResourceGuard::Read(guard)),
            Err(error) => Err(error),
        },
        Request::Write(key) => match WriteResource::fetch(allocator, key) {
            Ok(guard) => Ok(ResourceGuard::Write(guard)),
            Err(error) => Err(error),
        },
    }
}

/// Hands one guard back to the resource registry.
fn release_resource<T>(allocator: &mut ResourceStorageAllocator<T>, guard: ResourceGuard)
    requires
        returnable(slot_borrows(old(allocator)@), guard.request()),
    ensures
        final(allocator)@ == slots_with_borrows(
            old(allocator)@,
            returned(slot_borrows(old(allocator)@), guard.request()),
        ),
{
    match guard {
        ResourceGuard::Read(guard) => {
            allocator.release(guard);
        },
        ResourceGuard::Write(guard) => {
            allocator.release_mut(guard);
        },
    }
    assert(allocator@ =~= slots_with_borrows(
        old(allocator)@,
        returned(slot_borrows(old(allocator)@), guard.request()),
    ));
}

/// Hands a pack of guards back to the resource registry, the last first.
pub fn release_resources<T>(allocator: &mut ResourceStorageAllocator<T>, guards: Vec<ResourceGuard>)
    requires
        returnable_all(slot_borrows(old(allocator)@), resource_requests(guards@)),
    ensures
        final(allocator)@ == slots_with_borrows(
            old(allocator)@,
            returned_all(slot_borrows(old(allocator)@), resource_requests(guards@)),
        ),
{
    let mut guards = guards;
    let ghost all = resource_requests(guards@);
    let ghost target = slots_with_borrows(
        old(allocator)@,
        returned_all(slot_borrows(old(allocator)@), all),
    );
    assert(slots_with_borrows(allocator@, returned_all(slot_borrows(allocator@), all)) == target);
    while guards.len() > 0
        invariant
            returnable_all(slot_borrows(allocator@), resource_requests(guards@)),
            slots_with_borrows(
                allocator@,
                returned_all(slot_borrows(allocator@), resource_requests(guards@)),
            ) == target,
        decreases guards@.len(),
    {
        let ghost before = allocator@;
        let ghost pending = resource_requests(guards@);
        let guard = guards.pop().unwrap();
        proof {
            assert(resource_requests(guards@) =~= pending.drop_last());
            assert(guard.request() == pending.last());
        }
        release_resource(allocator, guard);
        proof {
            let table = returned(slot_borrows(before), pending.last());
            assert(slot_borrows(allocator@) =~= table);
            lemma_returned_all_dom(table, pending.drop_last());
            assert(slots_with_borrows(allocator@, returned_all(table, pending.drop_last()))
                =~= slots_with_borrows(before, returned_all(table, pending.drop_last())));
        }
    }
    assert(allocator@ =~= slots_with_borrows(allocator@, slot_borrows(allocator@)));
}

/// Fetches the guards of a pack from the resource registry, in the order of
/// the requests. Where one of them is refused, the guards fetched so far are
/// handed back and the registry is as it was.
pub fn fetch_resources<T>(allocator: &mut ResourceStorageAllocator<T>, requests: &Vec<Request>) -> (res: Result<
    Vec<ResourceGuard>,
    RetrievalError,
>)
    ensures
        match res {
            Ok(guards) => first_refusal(slot_borrows(old(allocator)@), requests@).is_none()
                && resource_requests(guards@) == requests@ && final(allocator)@
                == slots_with_borrows(
                old(allocator)@,
                granted_all(slot_borrows(old(allocator)@), requests@),
            ),
            Err(error) => first_refusal(slot_borrows(old(allocator)@), requests@) matches Some(
                refusal,
            ) && error == resource_error(refusal) && final(allocator)@ == old(allocator)@,
        },
{
    let mut guards: Vec<ResourceGuard> = Vec::new();
    let ghost table = slot_borrows(allocator@);
    let mut i: usize = 0;
    assert(resource_requests(guards@) =~= requests@.take(0));
    assert(allocator@ =~= slots_with_borrows(old(allocator)@, table));
    while i < requests.len()
        invariant
            i <= requests@.len(),
            table == slot_borrows(old(allocator)@),
            resource_requests(guards@) == requests@.take(i as int),
            first_refusal(table, requests@.take(i as int)).is_none(),
            allocator@ == slots_with_borrows(
                old(allocator)@,
                granted_all(table, requests@.take(i as int)),
            ),
        decreases requests@.len() - i,
    {
        let ghost done = requests@.take(i as int);
        let ghost next = requests@.take(i + 1);
        let ghost before = allocator@;
        proof {
            assert(next.drop_last() == done);
            assert(next.last() == requests@[i as int]);
            lemma_fetch_then_release(table, done);
            assert(slot_borrows(before) =~= granted_all(table, done));
        }
        match fetch_resource(allocator, requests[i]) {
            Ok(guard) => {
                let ghost held = resource_requests(guards@);
                guards.push(guard);
                proof {
                    assert(resource_requests(guards@) =~= held.push(guard.request()));
                    assert(next == done.push(requests@[i as int]));
                    assert(allocator@ =~= slots_with_borrows(
                        old(allocator)@,
                        granted_all(table, next),
                    ));
                }
            },
            Err(error) => {
                proof {
                    lemma_first_refusal_prefix(table, requests@, i + 1);
                    assert(slots_with_borrows(before, table) =~= old(allocator)@);
                }
                release_resources(allocator, guards);
                return Err(error);
            },
        }
        i += 1;
    }
    assert(requests@.take(requests@.len() as int) == requests@);
    Ok(guards)
}

/// Fetches the guard of one request from the component registry.
fn fetch_component<T>(allocator: &mut ComponentStorageAllocator<T>, request: Request) -> (res: Result<ComponentGuard, RetrievalError>)
    ensures
        match res {
            Ok(guard) => refusal(column_borrows(old(allocator)@), request).is_none() && guard.request()
                == request && final(allocator)@ == columns_with_borrows(
                old(allocator)@,
                granted(column_borrows(old(allocator)@), request),
            ),
            Err(error) => refusal(column_borrows(old(allocator)@), request) matches Some(refusal)
                && error == component_error(refusal) && final(allocator)@ == old(allocator)@,
        },
{
    match request {
        Request::Read(key) => match ReadComponent::fetch(allocator, key) {
            Ok(guard) => Ok(ComponentGuard::Read(guard)),
            Err(error) => Err(error),
        },
        Request::Write(key) => match WriteComponent::fetch(allocator, key) {
            Ok(guard) => Ok(ComponentGuard::Write(guard)),
            Err(error) => Err(error),
        },
    }
}

/// Hands one guard back to the component registry.
fn release_component<T>(allocator: &mut ComponentStorageAllocator<T>, guard: ComponentGuard)
    requires
        returnable(column_borrows(old(allocator)@), guard.request()),
    ensures
        final(allocator)@ == columns_with_borrows(
            old(allocator)@,
            returned(column_borrows(old(allocator)@), guard.request()),
        ),
{
    match guard {
        ComponentGuard::Read(guard) => {
            allocator.release(guard);
        },
        ComponentGuard::Write(guard) => {
            allocator.release_mut(guard);
        },
    }
    assert(allocator@ =~= columns_with_borrows(
        old(allocator)@,
        returned(column_borrows(old(allocator)@), guard.request()),
    ));
}

/// Hands a pack of guards back to the component registry, the last first.
pub fn release_components<T>(allocator: &mut ComponentStorageAllocator<T>, guards: Vec<ComponentGuard>)
    requires
        returnable_all(column_borrows(old(allocator)@), component_requests(guards@)),
    ensures
        final(allocator)@ == columns_with_borrows(
            old(allocator)@,
            returned_all(column_borrows(old(allocator)@), component_requests(guards@)),
        ),
{
    let mut guards = guards;
    let ghost all = component_requests(guards@);
    let ghost target = columns_with_borrows(
        old(allocator)@,
        returned_all(column_borrows(old(allocator)@), all),
    );
    assert(columns_with_borrows(allocator@, returned_all(column_borrows(allocator@), all)) == target);
    while guards.len() > 0
        invariant
            returnable_all(column_borrows(allocator@), component_requests(guards@)),
            columns_with_borrows(
                allocator@,
                returned_all(column_borrows(allocator@), component_requests(guards@)),
            ) == target,
        decreases guards@.len(),
    {
        let ghost before = allocator@;
        let ghost pending = component_requests(guards@);
        let guard = guards.pop().unwrap();
        proof {
            assert(component_requests(guards@) =~= pending.drop_last());
            assert(guard.request() == pending.last());
        }
        release_component(allocator, guard);
        proof {
            let table = returned(column_borrows(before), pending.last());
            assert(column_borrows(allocator@) =~= table);
            lemma_returned_all_dom(table, pending.drop_last());
            assert(columns_with_borrows(allocator@, returned_all(table, pending.drop_last()))
                =~= columns_with_borrows(before, returned_all(table, pending.drop_last())));
        }
    }
    assert(allocator@ =~= columns_with_borrows(allocator@, column_borrows(allocator@)));
}

/// Fetches the guards of a pack from the component registry, in the order of
/// the requests. Where one of them is refused, the guards fetched so far are
/// handed back and the registry is as it was.
pub fn fetch_components<T>(allocator: &mut ComponentStorageAllocator<T>, requests: &Vec<Request>) -> (res: Result<
    Vec<ComponentGuard>,
    RetrievalError,
>)
    ensures
        match res {
            Ok(guards) => first_refusal(column_borrows(old(allocator)@), requests@).is_none()
                && component_requests(guards@) == requests@ && final(allocator)@
                == columns_with_borrows(
                old(allocator)@,
                granted_all(column_borrows(old(allocator)@), requests@),
            ),
            Err(error) => first_refusal(column_borrows(old(allocator)@), requests@) matches Some(
                refusal,
            ) && error == component_error(refusal) && final(allocator)@ == old(allocator)@,
        },
{
    let mut guards: Vec<ComponentGuard> = Vec::new();
    let ghost table = column_borrows(allocator@);
    let mut i: usize = 0;
    assert(component_requests(guards@) =~= requests@.take(0));
    assert(allocator@ =~= columns_with_borrows(old(allocator)@, table));
    while i < requests.len()
        invariant
            i <= requests@.len(),
            table == column_borrows(old(allocator)@),
            component_requests(guards@) == requests@.take(i as int),
            first_refusal(table, requests@.take(i as int)).is_none(),
            allocator@ == columns_with_borrows(
                old(allocator)@,
                granted_all(table, requests@.take(i as int)),
            ),
        decreases requests@.len() - i,
    {
        let ghost done = requests@.take(i as int);
        let ghost next = requests@.take(i + 1);
        let ghost before = allocator@;
        proof {
            assert(next.drop_last() == done);
            assert(next.last() == requests@[i as int]);
            lemma_fetch_then_release(table, done);
            assert(column_borrows(before) =~= granted_all(table, done));
        }
        match fetch_component(allocator, requests[i]) {
            Ok(guard) => {
                let ghost held = component_requests(guards@);
                guards.push(guard);
                proof {
                    assert(component_requests(guards@) =~= held.push(guard.request()));
                    assert(next == done.push(requests@[i as int]));
                    assert(allocator@ =~= columns_with_borrows(
                        old(allocator)@,
                        granted_all(table, next),
                    ));
                }
            },
            Err(error) => {
                proof {
                    lemma_first_refusal_prefix(table, requests@, i + 1);
                    assert(columns_with_borrows(before, table) =~= old(allocator)@);
                }
                release_components(allocator, guards);
                return Err(error);
            },
        }
        i += 1;
    }
    assert(requests@.take(requests@.len() as int) == requests@);
    Ok(guards)
}

/// Whether `after` has the slots of `before` under the same borrow
/// counters; the values may differ.
pub open spec fn slots_kept<R>(before: Map<TypeKey, SlotView<R>>, after: Map<TypeKey, SlotView<R>>) -> bool {
    &&& after.dom() == before.dom()
    &&& forall|key: TypeKey| #[trigger]
        before.contains_key(key) ==> after[key].borrow == before[key].borrow
}

/// Whether `after` has the columns of `before` under the same borrow
/// counters and with the same entries; the values of the entries may
/// differ.
pub open spec fn columns_kept<C>(
    before: Map<TypeKey, ColumnView<C>>,
    after: Map<TypeKey, ColumnView<C>>,
) -> bool {
    &&& after.dom() == before.dom()
    &&& forall|key: TypeKey| #[trigger]
        before.contains_key(key) ==> after[key].borrow == before[key].borrow && after[key].ids
            == before[key].ids && after[key].values.len() == before[key].values.len()
}

/// A unit of work over the resources and components of a world. It names
/// the borrows that it needs, and runs once they are granted.
pub trait System<R, C> {
    /// The pack of resource borrows that the system needs. A system that
    /// does not say what it is leaves it open.
    open spec fn resource_pack(&self) -> Seq<Request> {
        arbitrary()
    }

    /// The pack of component borrows that the system needs. A system that
    /// does not say what it is leaves it open.
    open spec fn component_pack(&self) -> Seq<Request> {
        arbitrary()
    }

    /// The pack of resource borrows that the system needs.
    fn resources(&self) -> (pack: Vec<Request>)
        ensures
            pack@ == self.resource_pack(),
    ;

    /// The pack of component borrows that the system needs.
    fn components(&self) -> (pack: Vec<Request>)
        ensures
            pack@ == self.component_pack(),
    ;

    /// Runs the system under the guards of its two packs. It may change
    /// the values that it reaches through its exclusive guards, and nothing
    /// else: no slot or column comes or goes, no entry comes or goes, every
    /// borrow counter is afterwards what it was, and a slot or column over
    /// which the packs hold no exclusive guard keeps its values.
    fn execute(
        &mut self,
        resources: &mut ResourceStorageAllocator<R>,
        components: &mut ComponentStorageAllocator<C>,
        resource_guards: &Vec<ResourceGuard>,
        component_guards: &Vec<ComponentGuard>,
    )
        requires
            old(components).wf(),
        ensures
            slots_kept(old(resources)@, final(resources)@),
            columns_kept(old(components)@, final(components)@),
            unwritten_kept(old(resources)@, final(resources)@, resource_requests(resource_guards@)),
            unwritten_kept(
                old(components)@,
                final(components)@,
                component_requests(component_guards@),
            ),
    ;
}

/// Whether everything that is registered under a key for which `pack`
/// holds no exclusive request is in `after` what it was in `before`.
pub open spec fn unwritten_kept<V>(
    before: Map<TypeKey, V>,
    after: Map<TypeKey, V>,
    pack: Seq<Request>,
) -> bool {
    forall|key: TypeKey|
        #![trigger before.contains_key(key)]
        #![trigger after[key]]
        before.contains_key(key) && !pack.contains(Request::Write(key)) ==> after[key]
            == before[key]
}

} // verus!
