//! Resource slots and the registry that owns them.

use std::collections::hash_map::Entry;
use std::collections::HashMap;
use vstd::prelude::*;

use crate::cell::{after_exclusive, after_share, is_exclusive};
use crate::cell::{AtomicRef, AtomicRefCell, AtomicRefMut};
use crate::component::TypeKey;

verus! {

broadcast use vstd::std_specs::hash::group_hash_axioms;

/// The slot of one resource type: a single value on the heap.
#[derive(Debug)]
pub struct ResourceStorage<T> {
    resource: Box<T>,
}

impl<T> View for ResourceStorage<T> {
    type V = T;

    closed spec fn view(&self) -> T {
        *self.resource
    }
}

impl<T> ResourceStorage<T> {
    /// A slot that holds `resource`.
    pub fn new(resource: T) -> (storage: Self)
        ensures
            storage@ == resource,
    {
        Self { resource: Box::new(resource) }
    }

    /// The value in the slot.
    pub fn get(&self) -> (resource: &T)
        ensures
            *resource == self@,
    {
        &*self.resource
    }

    /// The value in the slot, open to change.
    pub fn get_mut(&mut self) -> (resource: &mut T)
        ensures
            *resource == old(self)@,
            final(self)@ == *final(resource),
    {
        &mut *self.resource
    }

    /// Gives the value up.
    pub fn into_inner(self) -> (resource: T)
        ensures
            resource == self@,
    {
        *self.resource
    }
}

/// What a registry shows of one slot: the borrow counter of its cell and
/// the value.
pub struct SlotView<T> {
    pub borrow: usize,
    pub value: T,
}

impl<T> SlotView<T> {
    /// The same value under another counter value.
    pub open spec fn with_borrow(self, borrow: usize) -> Self {
        SlotView { borrow, value: self.value }
    }
}

/// The registry view after `value` was registered for `key`: unchanged
/// where a slot was there, else with a slot that holds `value`.
pub open spec fn registered<T>(slots: Map<TypeKey, SlotView<T>>, key: TypeKey, value: T) -> Map<
    TypeKey,
    SlotView<T>,
> {
    if slots.contains_key(key) {
        slots
    } else {
        slots.insert(key, SlotView { borrow: 0, value })
    }
}

/// Registering a resource type twice is registering it once: the second
/// registration finds the slot and changes nothing, whatever value it
/// brings.
pub proof fn lemma_register_idempotent<T>(
    slots: Map<TypeKey, SlotView<T>>,
    key: TypeKey,
    first: T,
    second: T,
)
    ensures
        registered(slots, key, first).contains_key(key),
        registered(registered(slots, key, first), key, second) == registered(slots, key, first),
{
}

/// A resource that was registered under a new key is what a shared borrow
/// of the key then reads.
pub proof fn lemma_register_then_get<T>(slots: Map<TypeKey, SlotView<T>>, key: TypeKey, value: T)
    requires
        !slots.contains_key(key),
    ensures
        after_share(registered(slots, key, value)[key].borrow).is_some(),
        after_try_get(registered(slots, key, value), key).contains_key(key),
        after_try_get(registered(slots, key, value), key)[key].value == value,
{
}

/// The registry view with the counter of `key` set to `borrow`.
pub open spec fn with_borrow<T>(slots: Map<TypeKey, SlotView<T>>, key: TypeKey, borrow: usize) -> Map<
    TypeKey,
    SlotView<T>,
> {
    slots.insert(key, slots[key].with_borrow(borrow))
}

/// The registry view after an attempt to borrow the slot of `key` shared:
/// the counter goes up by one where the slot is registered and not
/// borrowed exclusively.
pub open spec fn after_try_get<T>(slots: Map<TypeKey, SlotView<T>>, key: TypeKey) -> Map<
    TypeKey,
    SlotView<T>,
> {
    if slots.contains_key(key) && after_share(slots[key].borrow).is_some() {
        with_borrow(slots, key, after_share(slots[key].borrow).unwrap())
    } else {
        slots
    }
}

/// The registry view after an attempt to borrow the slot of `key`
/// exclusively: the counter goes to `MAX` where the slot is registered and
/// not borrowed at all.
pub open spec fn after_try_get_mut<T>(slots: Map<TypeKey, SlotView<T>>, key: TypeKey) -> Map<
    TypeKey,
    SlotView<T>,
> {
    if slots.contains_key(key) && after_exclusive(slots[key].borrow).is_some() {
        with_borrow(slots, key, after_exclusive(slots[key].borrow).unwrap())
    } else {
        slots
    }
}

/// Guard of a shared borrow of the slot of one resource type.
#[derive(Debug)]
#[must_use]
pub struct Read {
    storage: AtomicRef,
    key: TypeKey,
}

impl Read {
    /// The resource type whose slot is borrowed.
    pub closed spec fn key(&self) -> TypeKey {
        self.key
    }

    /// Wraps the token of a shared borrow taken on the slot of `key`.
    pub fn new(storage: AtomicRef, key: TypeKey) -> (guard: Self)
        ensures
            guard.key() == key,
    {
        Self { storage, key }
    }

    /// The resource type whose slot is borrowed.
    pub fn type_key(&self) -> (key: TypeKey)
        ensures
            key == self.key(),
    {
        self.key
    }
}

/// Guard of the exclusive borrow of the slot of one resource type.
#[derive(Debug)]
#[must_use]
pub struct Write {
    storage: AtomicRefMut,
    key: TypeKey,
}

impl Write {
    /// The resource type whose slot is borrowed.
    pub closed spec fn key(&self) -> TypeKey {
        self.key
    }

    /// Wraps the token of the exclusive borrow taken on the slot of `key`.
    pub fn new(storage: AtomicRefMut, key: TypeKey) -> (guard: Self)
        ensures
            guard.key() == key,
    {
        Self { storage, key }
    }

    /// The resource type whose slot is borrowed.
    pub fn type_key(&self) -> (key: TypeKey)
        ensures
            key == self.key(),
    {
        self.key
    }
}

/// The registry of resources: one slot per registered resource type, each
/// in a cell of its own.
#[derive(Debug)]
pub struct ResourceStorageAllocator<T> {
    inner: HashMap<TypeKey, AtomicRefCell<ResourceStorage<T>>>,
}

/// What the registry shows of a cell.
spec fn slot_view<T>(cell: AtomicRefCell<ResourceStorage<T>>) -> SlotView<T> {
    SlotView { borrow: cell.state(), value: cell.value()@ }
}

impl<T> View for ResourceStorageAllocator<T> {
    type V = Map<TypeKey, SlotView<T>>;

    closed spec fn view(&self) -> Map<TypeKey, SlotView<T>> {
        self.inner@.map_values(|cell: AtomicRefCell<ResourceStorage<T>>| slot_view(cell))
    }
}

impl<T> ResourceStorageAllocator<T> {
    /// Whether a slot is registered for `key`.
    pub open spec fn has(&self, key: TypeKey) -> bool {
        self@.contains_key(key)
    }

    /// A registry without slots.
    pub fn new() -> (registry: Self)
        ensures
            registry@ == Map::<TypeKey, SlotView<T>>::empty(),
    {
        let registry = Self { inner: HashMap::new() };
        assert(registry@ =~= Map::<TypeKey, SlotView<T>>::empty());
        registry
    }

    /// A registry without slots, with room for `capacity` of them.
    pub fn with_capacity(capacity: usize) -> (registry: Self)
        ensures
            registry@ == Map::<TypeKey, SlotView<T>>::empty(),
    {
        let registry = Self { inner: HashMap::with_capacity(capacity) };
        assert(registry@ =~= Map::<TypeKey, SlotView<T>>::empty());
        registry
    }

    /// Whether a slot is registered for `key`.
    pub fn contains(&self, key: TypeKey) -> (res: bool)
        ensures
            res == self.has(key),
    {
        self.inner.contains_key(&key)
    }

    /// The borrow counter of the cell of `key`, if one is registered.
    pub fn borrow_state(&self, key: TypeKey) -> (state: Option<usize>)
        ensures
            state == if self.has(key) {
                Some(self@[key].borrow)
            } else {
                None
            },
    {
        match self.inner.get(&key) {
            Some(cell) => Some(cell.borrow_state()),
            None => None,
        }
    }

    /// Changing one cell changes the view at its key only.
    proof fn lemma_view_insert(
        before: Map<TypeKey, AtomicRefCell<ResourceStorage<T>>>,
        key: TypeKey,
        cell: AtomicRefCell<ResourceStorage<T>>,
    )
        ensures
            before.insert(key, cell).map_values(
                |cell: AtomicRefCell<ResourceStorage<T>>| slot_view(cell),
            ) == before.map_values(|cell: AtomicRefCell<ResourceStorage<T>>| slot_view(cell)).insert(
                key,
                slot_view(cell),
            ),
    {
        assert(before.insert(key, cell).map_values(
            |cell: AtomicRefCell<ResourceStorage<T>>| slot_view(cell),
        ) =~= before.map_values(|cell: AtomicRefCell<ResourceStorage<T>>| slot_view(cell)).insert(
            key,
            slot_view(cell),
        ));
    }

    /// The cell of `key`, open to change.
    fn cell_mut(&mut self, key: TypeKey) -> (cell: Option<&mut AtomicRefCell<ResourceStorage<T>>>)
        ensures
            match cell {
                Some(cell) => old(self).inner@.contains_key(key) && *cell == old(self).inner@[key]
                    && final(self).inner@ == old(self).inner@.insert(key, *final(cell))
                    && final(self)@ == old(self)@.insert(key, slot_view(*final(cell))),
                None => !old(self).inner@.contains_key(key) && final(self).inner@ == old(
                    self,
                ).inner@ && final(self)@ == old(self)@,
            },
            cell.is_some() == old(self).has(key),
            cell matches Some(cell) ==> slot_view(*cell) == old(self)@[key],
    {
        match self.inner.entry(key) {
            Entry::Occupied(entry) => {
                let cell = entry.into_mut();
                proof {
                    Self::lemma_view_insert(old(self).inner@, key, *final(cell));
                }
                Some(cell)
            },
            Entry::Vacant(_) => {
                assert(old(self).inner@.remove(key) =~= old(self).inner@);
                None
            },
        }
    }

    /// Registers a slot made by `f` for `key`, unless one is registered
    /// already: then `f` is not called. Says whether the slot is new.
    pub fn register_with<F: FnOnce() -> ResourceStorage<T>>(&mut self, key: TypeKey, f: F) -> (created:
        bool)
        requires
            call_requires(f, ()),
        ensures
            created == !old(self).has(key),
            old(self).has(key) ==> final(self)@ == old(self)@,
            !old(self).has(key) ==> exists|storage: ResourceStorage<T>|
                call_ensures(f, (), storage) && final(self)@ == old(self)@.insert(
                    key,
                    SlotView { borrow: 0, value: storage@ },
                ),
    {
        match self.inner.entry(key) {
            Entry::Occupied(_) => {
                assert(old(self).inner@.insert(key, old(self).inner@[key]) =~= old(self).inner@);
                false
            },
            Entry::Vacant(vacant) => {
                let storage = f();
                let ghost made = storage;
                let cell = AtomicRefCell::new(storage);
                proof {
                    Self::lemma_view_insert(old(self).inner@, key, cell);
                }
                vacant.insert(cell);
                assert(call_ensures(f, (), made) && self@ == old(self)@.insert(
                    key,
                    SlotView { borrow: 0, value: made@ },
                ));
                true
            },
        }
    }

    /// Registers `resource` under `key`, unless a resource is registered
    /// there already: then the registry stays as it is and `resource` is
    /// dropped. Says whether the slot is new.
    pub fn register(&mut self, key: TypeKey, resource: T) -> (created: bool)
        ensures
            created == !old(self).has(key),
            final(self)@ == registered(old(self)@, key, resource),
    {
        match self.inner.entry(key) {
            Entry::Occupied(_) => {
                assert(old(self).inner@.insert(key, old(self).inner@[key]) =~= old(self).inner@);
                false
            },
            Entry::Vacant(vacant) => {
                let cell = AtomicRefCell::new(ResourceStorage::new(resource));
                proof {
                    Self::lemma_view_insert(old(self).inner@, key, cell);
                }
                vacant.insert(cell);
                true
            },
        }
    }

    /// Borrows the slot of `key` shared, if it is registered and not
    /// borrowed exclusively.
    pub fn try_get(&mut self, key: TypeKey) -> (guard: Option<Read>)
        ensures
            guard.is_some() == (old(self).has(key) && !is_exclusive(old(self)@[key].borrow)),
            guard matches Some(guard) ==> guard.key() == key,
            final(self)@ == after_try_get(old(self)@, key),
    {
        match self.cell_mut(key) {
            Some(cell) => match cell.try_borrow() {
                Some(borrow) => Some(Read::new(borrow, key)),
                None => {
                    assert(self@ =~= old(self)@);
                    None
                },
            },
            None => None,
        }
    }

    /// Borrows the slot of `key` shared, if it is registered. It may not be
    /// borrowed exclusively.
    pub fn get(&mut self, key: TypeKey) -> (guard: Option<Read>)
        requires
            old(self).has(key) ==> !is_exclusive(old(self)@[key].borrow),
        ensures
            guard.is_some() == old(self).has(key),
            guard matches Some(guard) ==> guard.key() == key,
            final(self)@ == after_try_get(old(self)@, key),
    {
        self.try_get(key)
    }

    /// Borrows the slot of `key` exclusively, if it is registered and not
    /// borrowed at all.
    pub fn try_get_mut(&mut self, key: TypeKey) -> (guard: Option<Write>)
        ensures
            guard.is_some() == (old(self).has(key) && old(self)@[key].borrow == 0),
            guard matches Some(guard) ==> guard.key() == key,
            final(self)@ == after_try_get_mut(old(self)@, key),
    {
        match self.cell_mut(key) {
            Some(cell) => match cell.try_borrow_mut() {
                Some(borrow) => Some(Write::new(borrow, key)),
                None => {
                    assert(self@ =~= old(self)@);
                    None
                },
            },
            None => None,
        }
    }

    /// Borrows the slot of `key` exclusively, if it is registered. It may
    /// not be borrowed.
    pub fn get_mut(&mut self, key: TypeKey) -> (guard: Option<Write>)
        requires
            old(self).has(key) ==> old(self)@[key].borrow == 0,
        ensures
            guard.is_some() == old(self).has(key),
            guard matches Some(guard) ==> guard.key() == key,
            final(self)@ == after_try_get_mut(old(self)@, key),
    {
        self.try_get_mut(key)
    }

    /// Registers `resource` under `key` if nothing is registered there, and
    /// borrows the slot shared. It may not be borrowed exclusively.
    pub fn get_and_register(&mut self, key: TypeKey, resource: T) -> (guard: Read)
        requires
            old(self).has(key) ==> !is_exclusive(old(self)@[key].borrow),
        ensures
            guard.key() == key,
            final(self)@ == after_try_get(registered(old(self)@, key, resource), key),
            final(self)@[key].borrow == registered(old(self)@, key, resource)[key].borrow + 1,
    {
        self.register(key, resource);
        match self.try_get(key) {
            Some(guard) => guard,
            None => vstd::pervasive::unreached(),
        }
    }

    /// Registers `resource` under `key` if nothing is registered there, and
    /// borrows the slot exclusively. It may not be borrowed.
    pub fn get_mut_and_register(&mut self, key: TypeKey, resource: T) -> (guard: Write)
        requires
            old(self).has(key) ==> old(self)@[key].borrow == 0,
        ensures
            guard.key() == key,
            final(self)@ == after_try_get_mut(registered(old(self)@, key, resource), key),
            is_exclusive(final(self)@[key].borrow),
    {
        self.register(key, resource);
        match self.try_get_mut(key) {
            Some(guard) => guard,
            None => vstd::pervasive::unreached(),
        }
    }

    /// Registers a slot made by `f` for `key` if there is none, and borrows
    /// the slot shared. It may not be borrowed exclusively.
    pub fn get_and_register_with<F: FnOnce() -> ResourceStorage<T>>(&mut self, key: TypeKey, f: F) -> (guard:
        Read)
        requires
            call_requires(f, ()),
            old(self).has(key) ==> !is_exclusive(old(self)@[key].borrow),
        ensures
            guard.key() == key,
            old(self).has(key) ==> final(self)@ == after_try_get(old(self)@, key),
            !old(self).has(key) ==> exists|storage: ResourceStorage<T>|
                call_ensures(f, (), storage) && final(self)@ == old(self)@.insert(
                    key,
                    SlotView { borrow: 1, value: storage@ },
                ),
    {
        let created = self.register_with(key, f);
        let ghost registered = self@;
        match self.try_get(key) {
            Some(guard) => {
                proof {
                    if created {
                        let storage = choose|storage: ResourceStorage<T>|
                            call_ensures(f, (), storage) && registered == old(self)@.insert(
                                key,
                                SlotView { borrow: 0, value: storage@ },
                            );
                        assert(self@ =~= old(self)@.insert(
                            key,
                            SlotView { borrow: 1, value: storage@ },
                        ));
                    }
                }
                guard
            },
            None => vstd::pervasive::unreached(),
        }
    }

    /// Registers a slot made by `f` for `key` if there is none, and borrows
    /// the slot exclusively. It may not be borrowed.
    pub fn get_mut_and_register_with<F: FnOnce() -> ResourceStorage<T>>(
        &mut self,
        key: TypeKey,
        f: F,
    ) -> (guard: Write)
        requires
            call_requires(f, ()),
            old(self).has(key) ==> old(self)@[key].borrow == 0,
        ensures
            guard.key() == key,
            old(self).has(key) ==> final(self)@ == after_try_get_mut(old(self)@, key),
            !old(self).has(key) ==> exists|storage: ResourceStorage<T>|
                call_ensures(f, (), storage) && final(self)@ == old(self)@.insert(
                    key,
                    SlotView { borrow: crate::cell::MUTABLY_BORROWED, value: storage@ },
                ),
    {
        let created = self.register_with(key, f);
        let ghost registered = self@;
        match self.try_get_mut(key) {
            Some(guard) => {
                proof {
                    if created {
                        let storage = choose|storage: ResourceStorage<T>|
                            call_ensures(f, (), storage) && registered == old(self)@.insert(
                                key,
                                SlotView { borrow: 0, value: storage@ },
                            );
                        assert(self@ =~= old(self)@.insert(
                            key,
                            SlotView { borrow: crate::cell::MUTABLY_BORROWED, value: storage@ },
                        ));
                    }
                }
                guard
            },
            None => vstd::pervasive::unreached(),
        }
    }

    /// Ends the shared borrow that `guard` stands for.
    pub fn release(&mut self, guard: Read)
        requires
            old(self).has(guard.key()),
            old(self)@[guard.key()].borrow >= 1,
        ensures
            final(self)@ == with_borrow(
                old(self)@,
                guard.key(),
                (old(self)@[guard.key()].borrow - 1) as usize,
            ),
    {
        let Read { storage, key } = guard;
        match self.cell_mut(key) {
            Some(cell) => {
                cell.release(storage);
            },
            None => {},
        }
    }

    /// Ends the exclusive borrow that `guard` stands for.
    pub fn release_mut(&mut self, guard: Write)
        requires
            old(self).has(guard.key()),
            is_exclusive(old(self)@[guard.key()].borrow),
        ensures
            final(self)@ == with_borrow(old(self)@, guard.key(), 0),
    {
        let Write { storage, key } = guard;
        match self.cell_mut(key) {
            Some(cell) => {
                cell.release_mut(storage);
            },
            None => {},
        }
    }

    /// Takes the whole slot of `key` out of the registry.
    pub fn remove_storage(&mut self, key: TypeKey) -> (storage: Option<ResourceStorage<T>>)
        ensures
            final(self)@ == old(self)@.remove(key),
            match storage {
                Some(storage) => old(self).has(key) && storage@ == old(self)@[key].value,
                None => !old(self).has(key),
            },
    {
        let removed = self.inner.remove(&key);
        assert(self@ =~= old(self)@.remove(key));
        match removed {
            Some(cell) => Some(cell.into_inner()),
            None => None,
        }
    }

    /// The resource behind a shared guard, if it is still registered.
    pub fn resource(&self, guard: &Read) -> (resource: Option<&T>)
        ensures
            match resource {
                Some(resource) => self.has(guard.key()) && *resource == self@[guard.key()].value,
                None => !self.has(guard.key()),
            },
    {
        match self.inner.get(&guard.key) {
            Some(cell) => Some(cell.read(&guard.storage).get()),
            None => None,
        }
    }

    /// The resource behind the exclusive guard, open to change, if it is
    /// still registered.
    pub fn resource_mut(&mut self, guard: &Write) -> (resource: Option<&mut T>)
        ensures
            match resource {
                Some(resource) => old(self).has(guard.key()) && *resource == old(
                    self,
                )@[guard.key()].value && final(self)@ == old(self)@.insert(
                    guard.key(),
                    SlotView { borrow: old(self)@[guard.key()].borrow, value: *final(resource) },
                ),
                None => !old(self).has(guard.key()) && final(self)@ == old(self)@,
            },
    {
        match self.cell_mut(guard.key) {
            Some(cell) => Some(cell.write(&guard.storage).get_mut()),
            None => None,
        }
    }
}

} // verus!
