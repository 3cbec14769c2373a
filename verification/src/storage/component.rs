//! Component columns and the registry that owns them.

use std::collections::hash_map::Entry;
use std::collections::HashMap;
use vstd::prelude::*;
use vstd::std_specs::iter::IteratorSpec;

use crate::cell::{after_exclusive, after_share, is_exclusive};
use crate::cell::{AtomicRef, AtomicRefCell, AtomicRefMut};
use crate::component::TypeKey;
use crate::entity::{Entity, EntityId};

verus! {

broadcast use vstd::std_specs::hash::group_hash_axioms;

/// `ids` without the entry of `id`, the others in their order.
pub open spec fn ids_without(ids: Seq<EntityId>, id: EntityId) -> Seq<EntityId> {
    if ids.contains(id) {
        ids.remove(ids.index_of(id))
    } else {
        ids
    }
}

/// `values` without the value that stands beside `id` in `ids`.
pub open spec fn values_without<T>(ids: Seq<EntityId>, values: Seq<T>, id: EntityId) -> Seq<T> {
    if ids.contains(id) {
        values.remove(ids.index_of(id))
    } else {
        values
    }
}

/// The column of one component type: the entities that carry a component
/// of the type, in the order in which they were given one, and beside each
/// its value.
#[derive(Debug)]
pub struct ComponentStorage<T> {
    ids: Vec<EntityId>,
    comps: Vec<T>,
}

impl<T> ComponentStorage<T> {
    /// The entity identifiers, in storage order.
    pub closed spec fn ids(&self) -> Seq<EntityId> {
        self.ids@
    }

    /// The component values; `values()[i]` belongs to `ids()[i]`.
    pub closed spec fn values(&self) -> Seq<T> {
        self.comps@
    }

    /// The column's invariant: one value per identifier, and no identifier
    /// twice.
    pub open spec fn wf(&self) -> bool {
        &&& self.ids().len() == self.values().len()
        &&& self.ids().no_duplicates()
    }

    /// Whether `id` has an entry.
    pub open spec fn has(&self, id: EntityId) -> bool {
        self.ids().contains(id)
    }

    /// The value stored for `id`, where it has an entry.
    pub open spec fn value_of(&self, id: EntityId) -> T
        recommends
            self.has(id),
    {
        self.values()[self.ids().index_of(id)]
    }

    /// In a well-formed column every identifier occurs at one index only.
    pub proof fn lemma_ids_distinct(&self)
        requires
            self.wf(),
        ensures
            forall|i: int, j: int|
                0 <= i < self.ids().len() && 0 <= j < self.ids().len() && i != j
                    ==> self.ids()[i] != self.ids()[j],
    {
    }

    /// An empty column.
    pub fn new() -> (storage: Self)
        ensures
            storage.wf(),
            storage.ids() == Seq::<EntityId>::empty(),
            storage.values() == Seq::<T>::empty(),
    {
        Self { ids: Vec::new(), comps: Vec::new() }
    }

    /// An empty column with room for `capacity` entries.
    pub fn with_capacity(capacity: usize) -> (storage: Self)
        ensures
            storage.wf(),
            storage.ids() == Seq::<EntityId>::empty(),
            storage.values() == Seq::<T>::empty(),
    {
        Self { ids: Vec::with_capacity(capacity), comps: Vec::with_capacity(capacity) }
    }

    /// The number of entries.
    pub fn len(&self) -> (len: usize)
        requires
            self.wf(),
        ensures
            len == self.ids().len(),
            len == self.values().len(),
    {
        self.comps.len()
    }

    /// The index of the entry of `id`, if it has one.
    pub fn find(&self, id: EntityId) -> (index: Option<usize>)
        requires
            self.wf(),
        ensures
            match index {
                Some(i) => i < self.ids().len() && self.ids()[i as int] == id
                    && self.ids().index_of(id) == i,
                None => !self.has(id),
            },
    {
        let mut i: usize = 0;
        while i < self.ids.len()
            invariant
                self.wf(),
                i <= self.ids@.len(),
                forall|j: int| 0 <= j < i ==> self.ids@[j] != id,
            decreases self.ids@.len() - i,
        {
            if self.ids[i] == id {
                proof {
                    let k = self.ids@.index_of(id);
                    assert(0 <= k < self.ids@.len() && self.ids@[k] == id);
                }
                return Some(i);
            }
            i += 1;
        }
        None
    }

    /// Appends the entry `(id, t)`, unless `id` already has one: then the
    /// column stays as it is and `t` comes back.
    pub fn push(&mut self, id: EntityId, t: T) -> (res: Result<(), T>)
        requires
            old(self).wf(),
        ensures
            final(self).wf(),
            old(self).has(id) ==> res == Err::<(), T>(t) && final(self).ids() == old(self).ids()
                && final(self).values() == old(self).values(),
            !old(self).has(id) ==> res.is_ok() && final(self).ids() == old(self).ids().push(id)
                && final(self).values() == old(self).values().push(t),
    {
        match self.find(id) {
            Some(_) => Err(t),
            None => {
                self.ids.push(id);
                self.comps.push(t);
                Ok(())
            },
        }
    }

    /// Takes the last entry off, if there is one.
    pub fn pop(&mut self) -> (res: Option<(EntityId, T)>)
        requires
            old(self).wf(),
        ensures
            final(self).wf(),
            old(self).ids().len() == 0 ==> res.is_none() && final(self).ids() == old(self).ids()
                && final(self).values() == old(self).values(),
            old(self).ids().len() > 0 ==> res == Some((old(self).ids().last(), old(self).values().last()))
                && final(self).ids() == old(self).ids().drop_last()
                && final(self).values() == old(self).values().drop_last(),
    {
        let id = self.ids.pop();
        let comp = self.comps.pop();
        match (id, comp) {
            (Some(id), Some(comp)) => Some((id, comp)),
            _ => None,
        }
    }

    /// Takes the entry at `index` out, keeping the order of the others.
    pub fn remove(&mut self, index: usize) -> (res: Option<(EntityId, T)>)
        requires
            old(self).wf(),
        ensures
            final(self).wf(),
            index >= old(self).ids().len() ==> res.is_none() && final(self).ids() == old(self).ids()
                && final(self).values() == old(self).values(),
            index < old(self).ids().len() ==> res == Some(
                (old(self).ids()[index as int], old(self).values()[index as int]),
            ) && final(self).ids() == old(self).ids().remove(index as int) && final(self).values()
                == old(self).values().remove(index as int),
    {
        if index >= self.len() {
            None
        } else {
            let id = self.ids.remove(index);
            let comp = self.comps.remove(index);
            Some((id, comp))
        }
    }

    /// Takes the entry of `id` out, keeping the order of the others, and
    /// returns its value.
    pub fn remove_by_id(&mut self, id: EntityId) -> (res: Option<T>)
        requires
            old(self).wf(),
        ensures
            final(self).wf(),
            !final(self).has(id),
            res == (if old(self).has(id) {
                Some(old(self).value_of(id))
            } else {
                None
            }),
            final(self).ids() == ids_without(old(self).ids(), id),
            final(self).values() == values_without(old(self).ids(), old(self).values(), id),
    {
        match self.find(id) {
            Some(index) => {
                self.ids.remove(index);
                let comp = self.comps.remove(index);
                proof {
                    let before = old(self).ids();
                    assert forall|j: int| 0 <= j < self.ids@.len() implies self.ids@[j] != id by {
                        if j < index {
                            assert(self.ids@[j] == before[j]);
                        } else {
                            assert(self.ids@[j] == before[j + 1]);
                        }
                    }
                }
                Some(comp)
            },
            None => None,
        }
    }

    /// The entity identifiers, in storage order.
    pub fn entities(&self) -> (ids: &[EntityId])
        ensures
            ids@ == self.ids(),
    {
        self.ids.as_slice()
    }

    /// The component values, in storage order.
    pub fn components(&self) -> (values: &[T])
        ensures
            values@ == self.values(),
    {
        self.comps.as_slice()
    }

    /// The component values, open to change; the identifiers stay. A slice
    /// cannot grow or shrink, so the column has as many values afterwards
    /// as before.
    pub fn components_mut(&mut self) -> (values: &mut [T])
        ensures
            values@ == old(self).values(),
            final(self).values() == final(values)@,
            final(self).ids() == old(self).ids(),
            old(self).wf() && final(values)@.len() == values@.len() ==> final(self).wf(),
    {
        self.comps.as_mut_slice()
    }

    /// The entries, in storage order: each identifier with its value, open
    /// to change. The entries themselves stay as they are.
    pub fn iter_mut(&mut self) -> (entries: Vec<(EntityId, &mut T)>)
        requires
            old(self).wf(),
        ensures
            final(self).wf(),
            final(self).ids() == old(self).ids(),
            final(self).values().len() == old(self).values().len(),
            entries@.len() == old(self).ids().len(),
            forall|i: int|
                0 <= i < entries@.len() ==> (#[trigger] entries@[i]).0 == old(self).ids()[i]
                    && *entries@[i].1 == old(self).values()[i],
            forall|i: int|
                0 <= i < entries@.len() ==> #[trigger] final(self).values()[i] == *final(entries@[i].1),
    {
        let mut entries: Vec<(EntityId, &mut T)> = Vec::new();
        let ids = &self.ids;
        let mut rest: &mut [T] = self.comps.as_mut_slice();
        while rest.len() > 0
            invariant
                ids@ == old(self).ids@,
                ids@.len() == old(self).comps@.len(),
                entries@.len() + rest@.len() == old(self).comps@.len(),
                rest@ == old(self).comps@.skip(entries@.len() as int),
                forall|i: int|
                    0 <= i < entries@.len() ==> (#[trigger] entries@[i]).0 == ids@[i]
                        && *entries@[i].1 == old(self).comps@[i],
                after_borrow(self.comps)@.len() == entries@.len() + final(rest)@.len(),
                forall|i: int|
                    0 <= i < entries@.len() ==> #[trigger] after_borrow(self.comps)@[i] == *final(entries@[i].1),
                forall|i: int|
                    0 <= i < final(rest)@.len() ==> after_borrow(self.comps)@[entries@.len() + i]
                        == #[trigger] final(rest)@[i],
            decreases rest@.len(),
        {
            let ghost n = entries@.len() as int;
            let ghost whole = after_borrow(self.comps)@;
            let ghost rest_final = final(rest)@;
            assert(forall|i: int| 0 <= i < rest_final.len() ==> whole[n + i] == rest_final[i]);
            let (head, tail) = rest.split_at_mut(1);
            assert(rest_final == final(head)@ + final(tail)@);
            let ghost head_final = final(head)@;
            let ghost head_now = head@;
            match head.first_mut() {
                Some(value) => {
                    proof {
                        assert(head_final == head_now.update(0, *final(value)));
                        assert(rest_final[0] == *final(value));
                        assert(whole[n + 0] == rest_final[0]);
                        assert forall|i: int| 0 <= i < final(tail)@.len() implies whole[n + 1 + i]
                            == #[trigger] final(tail)@[i] by {
                            assert(rest_final[1 + i] == final(tail)@[i]);
                            assert(whole[n + (1 + i)] == rest_final[1 + i]);
                        }
                    }
                    entries.push((ids[entries.len()], value));
                },
                None => {},
            }
            rest = tail;
        }
        let _ = rest.first_mut();
        entries
    }

    /// The component values, in storage order, each open to change. The
    /// entries themselves stay as they are.
    pub fn comp_iter_mut(&mut self) -> (values: Vec<&mut T>)
        requires
            old(self).wf(),
        ensures
            final(self).wf(),
            final(self).ids() == old(self).ids(),
            final(self).values().len() == old(self).values().len(),
            values@.len() == old(self).values().len(),
            forall|i: int| 0 <= i < values@.len() ==> *(#[trigger] values@[i]) == old(self).values()[i],
            forall|i: int|
                0 <= i < values@.len() ==> #[trigger] final(self).values()[i] == *final(values@[i]),
    {
        let mut values: Vec<&mut T> = Vec::new();
        let mut rest: &mut [T] = self.comps.as_mut_slice();
        while rest.len() > 0
            invariant
                values@.len() + rest@.len() == old(self).comps@.len(),
                rest@ == old(self).comps@.skip(values@.len() as int),
                forall|i: int|
                    0 <= i < values@.len() ==> *(#[trigger] values@[i]) == old(self).comps@[i],
                after_borrow(self.comps)@.len() == values@.len() + final(rest)@.len(),
                forall|i: int|
                    0 <= i < values@.len() ==> #[trigger] after_borrow(self.comps)@[i] == *final(values@[i]),
                forall|i: int|
                    0 <= i < final(rest)@.len() ==> after_borrow(self.comps)@[values@.len() + i]
                        == #[trigger] final(rest)@[i],
            decreases rest@.len(),
        {
            let ghost n = values@.len() as int;
            let ghost whole = after_borrow(self.comps)@;
            let ghost rest_final = final(rest)@;
            assert(forall|i: int| 0 <= i < rest_final.len() ==> whole[n + i] == rest_final[i]);
            let (head, tail) = rest.split_at_mut(1);
            assert(rest_final == final(head)@ + final(tail)@);
            let ghost head_final = final(head)@;
            let ghost head_now = head@;
            match head.first_mut() {
                Some(value) => {
                    proof {
                        assert(head_final == head_now.update(0, *final(value)));
                        assert(rest_final[0] == *final(value));
                        assert(whole[n + 0] == rest_final[0]);
                        assert forall|i: int| 0 <= i < final(tail)@.len() implies whole[n + 1 + i]
                            == #[trigger] final(tail)@[i] by {
                            assert(rest_final[1 + i] == final(tail)@[i]);
                            assert(whole[n + (1 + i)] == rest_final[1 + i]);
                        }
                    }
                    values.push(value);
                },
                None => {},
            }
            rest = tail;
        }
        let _ = rest.first_mut();
        values
    }

    /// The entries, in storage order: each identifier with its value.
    pub fn iter(&self) -> (entries: Vec<(EntityId, &T)>)
        requires
            self.wf(),
        ensures
            entries@.len() == self.ids().len(),
            forall|i: int|
                0 <= i < entries@.len() ==> (#[trigger] entries@[i]).0 == self.ids()[i]
                    && *entries@[i].1 == self.values()[i],
    {
        let mut entries: Vec<(EntityId, &T)> = Vec::new();
        let mut i: usize = 0;
        while i < self.ids.len()
            invariant
                self.wf(),
                i <= self.ids@.len(),
                entries@.len() == i,
                forall|j: int|
                    0 <= j < i ==> (#[trigger] entries@[j]).0 == self.ids@[j] && *entries@[j].1
                        == self.comps@[j],
            decreases self.ids@.len() - i,
        {
            entries.push((self.ids[i], &self.comps[i]));
            i += 1;
        }
        entries
    }

    /// A walk over the component values, in storage order.
    pub fn comp_iter(&self) -> (iter: std::slice::Iter<'_, T>)
        ensures
            iter.remaining() == self.values().as_ref(),
    {
        self.comps.as_slice().iter()
    }

    /// The value stored for `id`, if it has an entry.
    pub fn get_item(&self, id: EntityId) -> (item: Option<&T>)
        requires
            self.wf(),
        ensures
            match item {
                Some(value) => self.has(id) && *value == self.value_of(id),
                None => !self.has(id),
            },
    {
        match self.find(id) {
            Some(index) => Some(&self.comps[index]),
            None => None,
        }
    }

    /// The value stored for `id`, open to change, if it has an entry. The
    /// entries themselves stay as they are.
    pub fn get_item_mut(&mut self, id: EntityId) -> (item: Option<&mut T>)
        requires
            old(self).wf(),
        ensures
            final(self).wf(),
            final(self).ids() == old(self).ids(),
            match item {
                Some(value) => old(self).has(id) && *value == old(self).value_of(id)
                    && final(self).values() == old(self).values().update(
                    old(self).ids().index_of(id),
                    *final(value),
                ),
                None => !old(self).has(id) && final(self).values() == old(self).values(),
            },
    {
        match self.find(id) {
            Some(index) => Some(&mut self.comps[index]),
            None => None,
        }
    }
}

/// What a registry shows of one column: the borrow counter of its cell and
/// the column's two sequences.
pub struct ColumnView<T> {
    pub borrow: usize,
    pub ids: Seq<EntityId>,
    pub values: Seq<T>,
}

impl<T> ColumnView<T> {
    /// The column's invariant, on the view.
    pub open spec fn wf(self) -> bool {
        &&& self.ids.len() == self.values.len()
        &&& self.ids.no_duplicates()
    }

    /// The view of a column that was just made: no entry, no borrow.
    pub open spec fn fresh() -> Self {
        ColumnView { borrow: 0, ids: Seq::empty(), values: Seq::empty() }
    }

    /// The same column under another counter value.
    pub open spec fn with_borrow(self, borrow: usize) -> Self {
        ColumnView { borrow, ids: self.ids, values: self.values }
    }

    /// The same column without the entry of `id`.
    pub open spec fn without(self, id: EntityId) -> Self {
        ColumnView {
            borrow: self.borrow,
            ids: ids_without(self.ids, id),
            values: values_without(self.ids, self.values, id),
        }
    }
}

/// The registry view after a column was registered for `key`: unchanged
/// where there was one, else with a fresh column.
pub open spec fn registered<T>(columns: Map<TypeKey, ColumnView<T>>, key: TypeKey) -> Map<
    TypeKey,
    ColumnView<T>,
> {
    if columns.contains_key(key) {
        columns
    } else {
        columns.insert(key, ColumnView::fresh())
    }
}

/// Registering a component type twice is registering it once: the second
/// registration finds the column and changes nothing.
pub proof fn lemma_register_idempotent<T>(columns: Map<TypeKey, ColumnView<T>>, key: TypeKey)
    ensures
        registered(columns, key).contains_key(key),
        registered(registered(columns, key), key) == registered(columns, key),
{
}

/// The registry view with the counter of `key` set to `borrow`.
pub open spec fn with_borrow<T>(
    columns: Map<TypeKey, ColumnView<T>>,
    key: TypeKey,
    borrow: usize,
) -> Map<TypeKey, ColumnView<T>> {
    columns.insert(key, columns[key].with_borrow(borrow))
}

/// The registry view after an attempt to borrow the column of `key`
/// shared: the counter goes up by one where the column is registered and
/// not borrowed exclusively.
pub open spec fn after_try_get<T>(columns: Map<TypeKey, ColumnView<T>>, key: TypeKey) -> Map<
    TypeKey,
    ColumnView<T>,
> {
    if columns.contains_key(key) && after_share(columns[key].borrow).is_some() {
        with_borrow(columns, key, after_share(columns[key].borrow).unwrap())
    } else {
        columns
    }
}

/// The registry view after an attempt to borrow the column of `key`
/// exclusively: the counter goes to `MAX` where the column is registered
/// and not borrowed at all.
pub open spec fn after_try_get_mut<T>(columns: Map<TypeKey, ColumnView<T>>, key: TypeKey) -> Map<
    TypeKey,
    ColumnView<T>,
> {
    if columns.contains_key(key) && after_exclusive(columns[key].borrow).is_some() {
        with_borrow(columns, key, after_exclusive(columns[key].borrow).unwrap())
    } else {
        columns
    }
}

/// Guard of a shared borrow of the column of one component type.
#[derive(Debug)]
#[must_use]
pub struct Read {
    storage: AtomicRef,
    key: TypeKey,
}

impl Read {
    /// The component type whose column is borrowed.
    pub closed spec fn key(&self) -> TypeKey {
        self.key
    }

    /// Wraps the token of a shared borrow taken on the column of `key`.
    pub fn new(storage: AtomicRef, key: TypeKey) -> (guard: Self)
        ensures
            guard.key() == key,
    {
        Self { storage, key }
    }

    /// The component type whose column is borrowed.
    pub fn type_key(&self) -> (key: TypeKey)
        ensures
            key == self.key(),
    {
        self.key
    }
}

/// Guard of the exclusive borrow of the column of one component type.
#[derive(Debug)]
#[must_use]
pub struct Write {
    storage: AtomicRefMut,
    key: TypeKey,
}

impl Write {
    /// The component type whose column is borrowed.
    pub closed spec fn key(&self) -> TypeKey {
        self.key
    }

    /// Wraps the token of the exclusive borrow taken on the column of `key`.
    pub fn new(storage: AtomicRefMut, key: TypeKey) -> (guard: Self)
        ensures
            guard.key() == key,
    {
        Self { storage, key }
    }

    /// The component type whose column is borrowed.
    pub fn type_key(&self) -> (key: TypeKey)
        ensures
            key == self.key(),
    {
        self.key
    }
}

/// The registry of component columns: one column per registered component
/// type, each in a cell of its own.
#[derive(Debug)]
pub struct ComponentStorageAllocator<T> {
    inner: HashMap<TypeKey, AtomicRefCell<ComponentStorage<T>>>,
}

/// What the registry shows of a cell.
spec fn column_view<T>(cell: AtomicRefCell<ComponentStorage<T>>) -> ColumnView<T> {
    ColumnView { borrow: cell.state(), ids: cell.value().ids(), values: cell.value().values() }
}

impl<T> View for ComponentStorageAllocator<T> {
    type V = Map<TypeKey, ColumnView<T>>;

    closed spec fn view(&self) -> Map<TypeKey, ColumnView<T>> {
        self.inner@.map_values(|cell: AtomicRefCell<ComponentStorage<T>>| column_view(cell))
    }
}

impl<T> ComponentStorageAllocator<T> {
    /// Whether a column is registered for `key`.
    pub open spec fn has(&self, key: TypeKey) -> bool {
        self@.contains_key(key)
    }

    /// The registry's invariant: every column is well formed.
    pub open spec fn wf(&self) -> bool {
        forall|key: TypeKey| #[trigger] self@.contains_key(key) ==> self@[key].wf()
    }

    /// A registry without columns.
    pub fn new() -> (registry: Self)
        ensures
            registry@ == Map::<TypeKey, ColumnView<T>>::empty(),
            registry.wf(),
    {
        let registry = Self { inner: HashMap::new() };
        assert(registry@ =~= Map::<TypeKey, ColumnView<T>>::empty());
        registry
    }

    /// A registry without columns, with room for `capacity` of them.
    pub fn with_capacity(capacity: usize) -> (registry: Self)
        ensures
            registry@ == Map::<TypeKey, ColumnView<T>>::empty(),
            registry.wf(),
    {
        let registry = Self { inner: HashMap::with_capacity(capacity) };
        assert(registry@ =~= Map::<TypeKey, ColumnView<T>>::empty());
        registry
    }

    /// Whether a column is registered for `key`.
    pub fn contains(&self, key: TypeKey) -> (res: bool)
        ensures
            res == self.has(key),
    {
        self.inner.contains_key(&key)
    }

    /// The borrow counter of the cell of `key`, if one is registered.
    pub fn borrow_state(&self, key: TypeKey) -> (state: Option<usize>)
        ensures
            state == if self.has(key) {
                Some(self@[key].borrow)
            } else {
                None
            },
    {
        match self.inner.get(&key) {
            Some(cell) => Some(cell.borrow_state()),
            None => None,
        }
    }

    /// Changing one cell changes the view at its key only.
    proof fn lemma_view_insert(
        before: Map<TypeKey, AtomicRefCell<ComponentStorage<T>>>,
        key: TypeKey,
        cell: AtomicRefCell<ComponentStorage<T>>,
    )
        ensures
            before.insert(key, cell).map_values(
                |cell: AtomicRefCell<ComponentStorage<T>>| column_view(cell),
            ) == before.map_values(
                |cell: AtomicRefCell<ComponentStorage<T>>| column_view(cell),
            ).insert(key, column_view(cell)),
    {
        assert(before.insert(key, cell).map_values(
            |cell: AtomicRefCell<ComponentStorage<T>>| column_view(cell),
        ) =~= before.map_values(
            |cell: AtomicRefCell<ComponentStorage<T>>| column_view(cell),
        ).insert(key, column_view(cell)));
    }

    /// The cell of `key`, open to change.
    fn cell_mut(&mut self, key: TypeKey) -> (cell: Option<&mut AtomicRefCell<ComponentStorage<T>>>)
        ensures
            match cell {
                Some(cell) => old(self).inner@.contains_key(key) && *cell == old(self).inner@[key]
                    && final(self).inner@ == old(self).inner@.insert(key, *final(cell))
                    && final(self)@ == old(self)@.insert(key, column_view(*final(cell))),
                None => !old(self).inner@.contains_key(key) && final(self).inner@ == old(
                    self,
                ).inner@ && final(self)@ == old(self)@,
            },
            cell.is_some() == old(self).has(key),
            cell matches Some(cell) ==> column_view(*cell) == old(self)@[key],
    {
        match self.inner.entry(key) {
            Entry::Occupied(entry) => {
                let cell = entry.into_mut();
                proof {
                    Self::lemma_view_insert(old(self).inner@, key, *final(cell));
                }
                Some(cell)
            },
            Entry::Vacant(_) => {
                assert(old(self).inner@.remove(key) =~= old(self).inner@);
                None
            },
        }
    }

    /// Registers a column made by `f` for `key`, unless one is registered
    /// already: then `f` is not called. Says whether the column is new.
    pub fn register_with<F: FnOnce() -> ComponentStorage<T>>(&mut self, key: TypeKey, f: F) -> (created:
        bool)
        requires
            call_requires(f, ()),
        ensures
            created == !old(self).has(key),
            old(self).has(key) ==> final(self)@ == old(self)@,
            !old(self).has(key) ==> exists|storage: ComponentStorage<T>|
                call_ensures(f, (), storage) && final(self)@ == old(self)@.insert(
                    key,
                    ColumnView { borrow: 0, ids: storage.ids(), values: storage.values() },
                ),
    {
        match self.inner.entry(key) {
            Entry::Occupied(_) => {
                assert(old(self).inner@.insert(key, old(self).inner@[key]) =~= old(self).inner@);
                false
            },
            Entry::Vacant(vacant) => {
                let storage = f();
                let ghost made = storage;
                let cell = AtomicRefCell::new(storage);
                proof {
                    Self::lemma_view_insert(old(self).inner@, key, cell);
                }
                vacant.insert(cell);
                assert(call_ensures(f, (), made) && self@ == old(self)@.insert(
                    key,
                    ColumnView { borrow: 0, ids: made.ids(), values: made.values() },
                ));
                true
            },
        }
    }

    /// Registers an empty column for `key`, unless one is registered
    /// already. Says whether the column is new.
    pub fn register(&mut self, key: TypeKey) -> (created: bool)
        ensures
            created == !old(self).has(key),
            final(self)@ == registered(old(self)@, key),
            old(self).wf() ==> final(self).wf(),
    {
        let created = self.register_with(key, ComponentStorage::<T>::new);
        proof {
            if created {
                let storage = choose|storage: ComponentStorage<T>|
                    call_ensures(ComponentStorage::<T>::new, (), storage) && self@ == old(
                        self,
                    )@.insert(
                        key,
                        ColumnView { borrow: 0, ids: storage.ids(), values: storage.values() },
                    );
                assert(self@[key] == ColumnView::<T>::fresh());
            }
        }
        created
    }

    /// Borrows the column of `key` shared, if it is registered and not
    /// borrowed exclusively.
    pub fn try_get(&mut self, key: TypeKey) -> (guard: Option<Read>)
        ensures
            guard.is_some() == (old(self).has(key) && !is_exclusive(old(self)@[key].borrow)),
            guard matches Some(guard) ==> guard.key() == key,
            final(self)@ == after_try_get(old(self)@, key),
    {
        match self.cell_mut(key) {
            Some(cell) => match cell.try_borrow() {
                Some(borrow) => Some(Read::new(borrow, key)),
                None => {
                    assert(self@ =~= old(self)@);
                    None
                },
            },
            None => {
                assert(self@ =~= old(self)@);
                None
            },
        }
    }

    /// Borrows the column of `key` shared, if it is registered. It may not
    /// be borrowed exclusively.
    pub fn get(&mut self, key: TypeKey) -> (guard: Option<Read>)
        requires
            old(self).has(key) ==> !is_exclusive(old(self)@[key].borrow),
        ensures
            guard.is_some() == old(self).has(key),
            guard matches Some(guard) ==> guard.key() == key,
            final(self)@ == after_try_get(old(self)@, key),
    {
        self.try_get(key)
    }

    /// Borrows the column of `key` exclusively, if it is registered and not
    /// borrowed at all.
    pub fn try_get_mut(&mut self, key: TypeKey) -> (guard: Option<Write>)
        ensures
            guard.is_some() == (old(self).has(key) && old(self)@[key].borrow == 0),
            guard matches Some(guard) ==> guard.key() == key,
            final(self)@ == after_try_get_mut(old(self)@, key),
    {
        match self.cell_mut(key) {
            Some(cell) => match cell.try_borrow_mut() {
                Some(borrow) => Some(Write::new(borrow, key)),
                None => {
                    assert(self@ =~= old(self)@);
                    None
                },
            },
            None => {
                assert(self@ =~= old(self)@);
                None
            },
        }
    }

    /// Borrows the column of `key` exclusively, if it is registered. It may
    /// not be borrowed.
    pub fn get_mut(&mut self, key: TypeKey) -> (guard: Option<Write>)
        requires
            old(self).has(key) ==> old(self)@[key].borrow == 0,
        ensures
            guard.is_some() == old(self).has(key),
            guard matches Some(guard) ==> guard.key() == key,
            final(self)@ == after_try_get_mut(old(self)@, key),
    {
        self.try_get_mut(key)
    }

    /// Ends the shared borrow that `guard` stands for.
    pub fn release(&mut self, guard: Read)
        requires
            old(self).has(guard.key()),
            old(self)@[guard.key()].borrow >= 1,
        ensures
            final(self)@ == with_borrow(
                old(self)@,
                guard.key(),
                (old(self)@[guard.key()].borrow - 1) as usize,
            ),
    {
        let Read { storage, key } = guard;
        match self.cell_mut(key) {
            Some(cell) => {
                cell.release(storage);
            },
            None => {},
        }
    }

    /// Ends the exclusive borrow that `guard` stands for.
    pub fn release_mut(&mut self, guard: Write)
        requires
            old(self).has(guard.key()),
            is_exclusive(old(self)@[guard.key()].borrow),
        ensures
            final(self)@ == with_borrow(old(self)@, guard.key(), 0),
    {
        let Write { storage, key } = guard;
        match self.cell_mut(key) {
            Some(cell) => {
                cell.release_mut(storage);
            },
            None => {},
        }
    }

    /// Registers an empty column for `key` if there is none, and borrows
    /// the column shared. It may not be borrowed exclusively.
    pub fn get_or_register(&mut self, key: TypeKey) -> (guard: Read)
        requires
            old(self).has(key) ==> !is_exclusive(old(self)@[key].borrow),
        ensures
            guard.key() == key,
            final(self)@ == after_try_get(registered(old(self)@, key), key),
            final(self)@[key].borrow == registered(old(self)@, key)[key].borrow + 1,
    {
        self.register(key);
        match self.try_get(key) {
            Some(guard) => guard,
            None => vstd::pervasive::unreached(),
        }
    }

    /// Registers an empty column for `key` if there is none, and borrows
    /// the column exclusively. It may not be borrowed.
    pub fn get_mut_or_register(&mut self, key: TypeKey) -> (guard: Write)
        requires
            old(self).has(key) ==> old(self)@[key].borrow == 0,
        ensures
            guard.key() == key,
            final(self)@ == after_try_get_mut(registered(old(self)@, key), key),
            is_exclusive(final(self)@[key].borrow),
    {
        self.register(key);
        match self.try_get_mut(key) {
            Some(guard) => guard,
            None => vstd::pervasive::unreached(),
        }
    }

    /// Registers a column made by `f` for `key` if there is none, and
    /// borrows the column shared. It may not be borrowed exclusively.
    pub fn get_or_register_with<F: FnOnce() -> ComponentStorage<T>>(&mut self, key: TypeKey, f: F) -> (guard:
        Read)
        requires
            call_requires(f, ()),
            old(self).has(key) ==> !is_exclusive(old(self)@[key].borrow),
        ensures
            guard.key() == key,
            old(self).has(key) ==> final(self)@ == after_try_get(old(self)@, key),
            !old(self).has(key) ==> exists|storage: ComponentStorage<T>|
                call_ensures(f, (), storage) && final(self)@ == old(self)@.insert(
                    key,
                    ColumnView { borrow: 1, ids: storage.ids(), values: storage.values() },
                ),
    {
        let created = self.register_with(key, f);
        let ghost registered = self@;
        match self.try_get(key) {
            Some(guard) => {
                proof {
                    if created {
                        let storage = choose|storage: ComponentStorage<T>|
                            call_ensures(f, (), storage) && registered == old(self)@.insert(
                                key,
                                ColumnView {
                                    borrow: 0,
                                    ids: storage.ids(),
                                    values: storage.values(),
                                },
                            );
                        assert(self@ =~= old(self)@.insert(
                            key,
                            ColumnView { borrow: 1, ids: storage.ids(), values: storage.values() },
                        ));
                    }
                }
                guard
            },
            None => vstd::pervasive::unreached(),
        }
    }

    /// Registers a column made by `f` for `key` if there is none, and
    /// borrows the column exclusively. It may not be borrowed.
    pub fn get_mut_or_register_with<F: FnOnce() -> ComponentStorage<T>>(
        &mut self,
        key: TypeKey,
        f: F,
    ) -> (guard: Write)
        requires
            call_requires(f, ()),
            old(self).has(key) ==> old(self)@[key].borrow == 0,
        ensures
            guard.key() == key,
            old(self).has(key) ==> final(self)@ == after_try_get_mut(old(self)@, key),
            !old(self).has(key) ==> exists|storage: ComponentStorage<T>|
                call_ensures(f, (), storage) && final(self)@ == old(self)@.insert(
                    key,
                    ColumnView {
                        borrow: crate::cell::MUTABLY_BORROWED,
                        ids: storage.ids(),
                        values: storage.values(),
                    },
                ),
    {
        let created = self.register_with(key, f);
        let ghost registered = self@;
        match self.try_get_mut(key) {
            Some(guard) => {
                proof {
                    if created {
                        let storage = choose|storage: ComponentStorage<T>|
                            call_ensures(f, (), storage) && registered == old(self)@.insert(
                                key,
                                ColumnView {
                                    borrow: 0,
                                    ids: storage.ids(),
                                    values: storage.values(),
                                },
                            );
                        assert(self@ =~= old(self)@.insert(
                            key,
                            ColumnView {
                                borrow: crate::cell::MUTABLY_BORROWED,
                                ids: storage.ids(),
                                values: storage.values(),
                            },
                        ));
                    }
                }
                guard
            },
            None => vstd::pervasive::unreached(),
        }
    }

    /// Takes the whole column of `key` out of the registry.
    pub fn remove_storage(&mut self, key: TypeKey) -> (storage: Option<ComponentStorage<T>>)
        ensures
            final(self)@ == old(self)@.remove(key),
            match storage {
                Some(storage) => old(self).has(key) && storage.ids() == old(self)@[key].ids
                    && storage.values() == old(self)@[key].values,
                None => !old(self).has(key),
            },
    {
        let removed = self.inner.remove(&key);
        assert(self@ =~= old(self)@.remove(key));
        match removed {
            Some(cell) => Some(cell.into_inner()),
            None => None,
        }
    }

    /// The registered keys, each once.
    fn keys(&self) -> (keys: Vec<TypeKey>)
        ensures
            keys@.no_duplicates(),
            forall|key: TypeKey| keys@.contains(key) <==> self.has(key),
    {
        let mut keys: Vec<TypeKey> = Vec::new();
        let ghost all = self.inner.keys().remaining();
        assert(all.unref().to_set() == self.inner@.dom());
        for key in it: self.inner.keys()
            invariant
                it.seq() == all,
                keys@.len() == it.index(),
                forall|i: int| 0 <= i < it.index() ==> keys@[i] == *all[i],
        {
            keys.push(*key);
        }
        proof {
            assert(keys@ =~= all.unref());
            assert forall|i: int, j: int|
                0 <= i < keys@.len() && 0 <= j < keys@.len() && i != j implies keys@[i]
                != keys@[j] by {
                assert(all[i] != all[j]);
            }
            assert forall|key: TypeKey| keys@.contains(key) <==> self.has(key) by {
                assert(keys@.to_set().contains(key) <==> self.inner@.dom().contains(key));
            }
        }
        keys
    }

    /// Takes the entry of `entity` out of every column that has one.
    pub fn remove_components(&mut self, entity: Entity)
        requires
            old(self).wf(),
        ensures
            final(self).wf(),
            final(self)@ == old(self)@.map_values(|column: ColumnView<T>| column.without(entity@)),
    {
        let keys = self.keys();
        let mut i: usize = 0;
        while i < keys.len()
            invariant
                i <= keys@.len(),
                keys@.no_duplicates(),
                forall|key: TypeKey| keys@.contains(key) <==> old(self).has(key),
                self@.dom() == old(self)@.dom(),
                self.wf(),
                old(self).wf(),
                forall|j: int| 0 <= j < i ==> self@[keys@[j]] == old(self)@[keys@[j]].without(entity@),
                forall|j: int| i <= j < keys@.len() ==> self@[keys@[j]] == old(self)@[keys@[j]],
            decreases keys@.len() - i,
        {
            let key = keys[i];
            let ghost before = self@;
            assert(keys@.contains(key));
            match self.cell_mut(key) {
                Some(cell) => {
                    let column = cell.get_mut();
                    let _ = column.remove_by_id(entity.id());
                },
                None => {},
            }
            proof {
                assert(self@.dom() =~= old(self)@.dom());
                assert(self@[key] == old(self)@[key].without(entity@));
                assert forall|j: int| 0 <= j < keys@.len() && j != i implies self@[keys@[j]]
                    == before[keys@[j]] by {
                    assert(keys@[j] != key);
                }
            }
            i += 1;
        }
        proof {
            assert forall|key: TypeKey| self@.contains_key(key) implies self@[key] == old(
                self,
            )@[key].without(entity@) by {
                assert(keys@.contains(key));
            }
            assert(self@ =~= old(self)@.map_values(
                |column: ColumnView<T>| column.without(entity@),
            ));
        }
    }

    /// Calls `f` on the column of `key`, if it is registered, and says
    /// whether it was called. The column may not be borrowed.
    pub fn get_and_update<F: FnOnce(&mut ComponentStorage<T>)>(&mut self, key: TypeKey, f: F) -> (called:
        bool)
        requires
            old(self).has(key) ==> old(self)@[key].borrow == 0,
            forall|column: &mut ComponentStorage<T>|
                old(self).has(key) && column.ids() == old(self)@[key].ids && column.values() == old(
                    self,
                )@[key].values ==> call_requires(f, (column,)),
        ensures
            called == old(self).has(key),
            !called ==> final(self)@ == old(self)@,
            called ==> exists|column: &mut ComponentStorage<T>|
                column.ids() == old(self)@[key].ids && column.values() == old(self)@[key].values
                    && call_ensures(f, (column,), ()) && final(self)@ == old(self)@.insert(
                    key,
                    ColumnView { borrow: 0, ids: final(column).ids(), values: final(column).values() },
                ),
    {
        match self.cell_mut(key) {
            Some(cell) => {
                let column = cell.get_mut();
                f(column);
                true
            },
            None => {
                assert(self@ =~= old(self)@);
                false
            },
        }
    }

    /// The column behind a shared guard, if it is still registered.
    pub fn storage(&self, guard: &Read) -> (storage: Option<&ComponentStorage<T>>)
        ensures
            match storage {
                Some(storage) => self.has(guard.key()) && storage.ids() == self@[guard.key()].ids
                    && storage.values() == self@[guard.key()].values,
                None => !self.has(guard.key()),
            },
    {
        match self.inner.get(&guard.key) {
            Some(cell) => Some(cell.read(&guard.storage)),
            None => None,
        }
    }

    /// The column behind the exclusive guard, open to change, if it is still
    /// registered.
    pub fn storage_mut(&mut self, guard: &Write) -> (storage: Option<&mut ComponentStorage<T>>)
        ensures
            match storage {
                Some(storage) => old(self).has(guard.key()) && storage.ids() == old(
                    self,
                )@[guard.key()].ids && storage.values() == old(self)@[guard.key()].values
                    && final(self)@ == old(self)@.insert(
                    guard.key(),
                    ColumnView {
                        borrow: old(self)@[guard.key()].borrow,
                        ids: final(storage).ids(),
                        values: final(storage).values(),
                    },
                ),
                None => !old(self).has(guard.key()) && final(self)@ == old(self)@,
            },
    {
        match self.cell_mut(guard.key) {
            Some(cell) => Some(cell.write(&guard.storage)),
            None => None,
        }
    }
}

} // verus!
