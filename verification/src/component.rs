//! Component type identities, signatures and component packs.

use std::collections::HashSet;
use vstd::prelude::*;
use vstd::std_specs::cmp::PartialEqSpecImpl;
use vstd::std_specs::iter::IteratorSpec;

use crate::entity::{Entity, EntityId};
use crate::storage::component::{registered, ColumnView, ComponentStorageAllocator};

verus! {

broadcast use vstd::std_specs::hash::group_hash_axioms;

/// The token that identifies a component or resource type within one
/// world. Columns and resource slots are found by it.
pub type TypeKey = u64;

/// What a component type must be: free to be sent to another thread and to
/// be reached from several threads at once.
pub trait Component: Send + Sync + 'static {

}

impl<T: Send + Sync + 'static> Component for T {

}

/// Whether every key of `a` is in `b`.
fn subset_of(a: &HashSet<TypeKey>, b: &HashSet<TypeKey>) -> (res: bool)
    ensures
        res == a@.subset_of(b@),
        a@.finite(),
{
    let mut res = true;
    let ghost all = a.iter().remaining();
    proof {
        assert(all.unref().to_set() == a@);
        vstd::seq_lib::seq_to_set_is_finite(all.unref());
    }
    for key in it: a.iter()
        invariant
            it.seq() == all,
            res == (forall|i: int| 0 <= i < it.index() ==> b@.contains(*all[i])),
    {
        if !b.contains(key) {
            res = false;
        }
    }
    proof {
        if res {
            assert forall|key: TypeKey| a@.contains(key) implies b@.contains(key) by {
                assert(all.unref().to_set().contains(key));
                let i = choose|i: int| 0 <= i < all.unref().len() && all.unref()[i] == key;
                assert(b@.contains(*all[i]));
            }
        } else {
            let i = choose|i: int| 0 <= i < all.len() && !b@.contains(*all[i]);
            assert(all.unref()[i] == *all[i]);
            assert(all.unref().to_set().contains(*all[i]));
        }
    }
    res
}

/// Puts every key of `from` into `into`.
fn insert_all(into: &mut HashSet<TypeKey>, from: &HashSet<TypeKey>)
    ensures
        final(into)@ == old(into)@.union(from@),
{
    let ghost all = from.iter().remaining();
    proof {
        assert(all.unref().to_set() == from@);
    }
    for key in it: from.iter()
        invariant
            it.seq() == all,
            all.unref().to_set() == from@,
            into@ == old(into)@.union(all.unref().take(it.index()).to_set()),
    {
        proof {
            let i = it.index();
            assert(all.unref().take(i + 1) == all.unref().take(i).push(*all[i]));
            all.unref().take(i).lemma_push_to_set_commute(*all[i]);
            assert(old(into)@.union(all.unref().take(i).to_set()).insert(*all[i]) == old(into)@.union(
                all.unref().take(i).to_set().insert(*all[i]),
            ));
        }
        into.insert(*key);
    }
    proof {
        assert(all.unref().take(all.unref().len() as int) == all.unref());
    }
}

/// Whether no key is in both sets.
fn disjoint(a: &HashSet<TypeKey>, b: &HashSet<TypeKey>) -> (res: bool)
    ensures
        res == a@.disjoint(b@),
{
    let mut res = true;
    let ghost all = a.iter().remaining();
    proof {
        assert(all.unref().to_set() == a@);
    }
    for key in it: a.iter()
        invariant
            it.seq() == all,
            res == (forall|i: int| 0 <= i < it.index() ==> !b@.contains(*all[i])),
    {
        if b.contains(key) {
            res = false;
        }
    }
    proof {
        if res {
            assert forall|key: TypeKey| a@.contains(key) implies !b@.contains(key) by {
                assert(all.unref().to_set().contains(key));
                let i = choose|i: int| 0 <= i < all.unref().len() && all.unref()[i] == key;
                assert(!b@.contains(*all[i]));
            }
        } else {
            let i = choose|i: int| 0 <= i < all.len() && b@.contains(*all[i]);
            assert(all.unref()[i] == *all[i]);
            assert(all.unref().to_set().contains(*all[i]));
        }
    }
    res
}

/// A signature: the set of component types that an entity carries.
#[derive(Debug)]
pub struct ComponentSet {
    ids: HashSet<TypeKey>,
}

impl View for ComponentSet {
    type V = Set<TypeKey>;

    closed spec fn view(&self) -> Set<TypeKey> {
        self.ids@
    }
}

impl ComponentSet {
    /// The signature with exactly the keys of `ids`.
    pub fn new(ids: HashSet<TypeKey>) -> (set: Self)
        ensures
            set@ == ids@,
    {
        Self { ids }
    }

    /// The signature of no component at all.
    pub fn empty() -> (set: Self)
        ensures
            set@ == Set::<TypeKey>::empty(),
    {
        Self { ids: HashSet::new() }
    }

    /// The signature of a pack: the set of its component types.
    pub fn from_tuple<T>(tuple: &ComponentTuple<T>) -> (set: Self)
        ensures
            set@ == tuple.keys().to_set(),
    {
        tuple.set()
    }

    /// The keys of the signature.
    pub fn set(&self) -> (ids: &HashSet<TypeKey>)
        ensures
            ids@ == self@,
    {
        &self.ids
    }

    /// Gives the keys up.
    pub fn into_inner(self) -> (ids: HashSet<TypeKey>)
        ensures
            ids@ == self@,
    {
        self.ids
    }

    /// Whether `key` belongs to the signature.
    pub fn contains(&self, key: TypeKey) -> (res: bool)
        ensures
            res == self@.contains(key),
    {
        self.ids.contains(&key)
    }

    /// Whether the two signatures share no key.
    pub fn is_disjoint(&self, other: &ComponentSet) -> (res: bool)
        ensures
            res == self@.disjoint(other@),
    {
        disjoint(&self.ids, &other.ids)
    }

    /// The signature with the keys of both.
    pub fn union(&self, other: &ComponentSet) -> (set: ComponentSet)
        ensures
            set@ == self@.union(other@),
    {
        let mut ids: HashSet<TypeKey> = HashSet::new();
        insert_all(&mut ids, &self.ids);
        insert_all(&mut ids, &other.ids);
        assert(Set::<TypeKey>::empty().union(self@).union(other@) == self@.union(other@));
        ComponentSet { ids }
    }
}

impl Clone for ComponentSet {
    fn clone(&self) -> (set: Self)
        ensures
            set@ == self@,
    {
        let mut ids: HashSet<TypeKey> = HashSet::new();
        insert_all(&mut ids, &self.ids);
        assert(Set::<TypeKey>::empty().union(self@) == self@);
        ComponentSet { ids }
    }
}

impl PartialEq for ComponentSet {
    /// Two signatures are equal when they hold the same keys.
    fn eq(&self, other: &Self) -> (res: bool) {
        let forth = subset_of(&self.ids, &other.ids);
        let back = subset_of(&other.ids, &self.ids);
        proof {
            if forth && back {
                assert(self@ =~= other@);
            }
        }
        forth && back
    }
}

impl PartialEqSpecImpl for ComponentSet {
    open spec fn obeys_eq_spec() -> bool {
        true
    }

    open spec fn eq_spec(&self, other: &Self) -> bool {
        self@ == other@
    }
}

impl Eq for ComponentSet {

}

/// The column `column` with the entry `(id, value)` appended.
pub open spec fn appended<T>(column: ColumnView<T>, id: EntityId, value: T) -> ColumnView<T> {
    ColumnView { borrow: column.borrow, ids: column.ids.push(id), values: column.values.push(value) }
}

/// The registry view after the components `values`, of the types `keys`,
/// were stored for the entity `id`: each named column is registered where
/// it was missing and has the entry of `id` appended; the other columns stay
/// as they are.
pub open spec fn stored<T>(
    columns: Map<TypeKey, ColumnView<T>>,
    keys: Seq<TypeKey>,
    values: Seq<T>,
    id: EntityId,
) -> Map<TypeKey, ColumnView<T>> {
    Map::new(
        |key: TypeKey| columns.contains_key(key) || keys.contains(key),
        |key: TypeKey|
            if keys.contains(key) {
                appended(registered(columns, key)[key], id, values[keys.index_of(key)])
            } else {
                columns[key]
            },
    )
}

/// The components that one entity is given at once: at most one of each
/// component type.
#[derive(Debug)]
pub struct ComponentTuple<T> {
    keys: Vec<TypeKey>,
    values: Vec<T>,
}

impl<T> ComponentTuple<T> {
    /// The component types, in the order in which they were added.
    pub closed spec fn keys(&self) -> Seq<TypeKey> {
        self.keys@
    }

    /// The component values; `values()[i]` is of the type `keys()[i]`.
    pub closed spec fn values(&self) -> Seq<T> {
        self.values@
    }

    /// The pack's invariant: one value per type, and no type twice.
    pub open spec fn wf(&self) -> bool {
        &&& self.keys().len() == self.values().len()
        &&& self.keys().no_duplicates()
    }

    /// The empty pack.
    pub fn new() -> (tuple: Self)
        ensures
            tuple.wf(),
            tuple.keys() == Seq::<TypeKey>::empty(),
            tuple.values() == Seq::<T>::empty(),
    {
        Self { keys: Vec::new(), values: Vec::new() }
    }

    /// The pack of one component.
    pub fn single(key: TypeKey, value: T) -> (tuple: Self)
        ensures
            tuple.wf(),
            tuple.keys() == seq![key],
            tuple.values() == seq![value],
    {
        let mut tuple = Self { keys: Vec::new(), values: Vec::new() };
        tuple.keys.push(key);
        tuple.values.push(value);
        assert(tuple.keys@ =~= seq![key]);
        assert(tuple.values@ =~= seq![value]);
        tuple
    }

    /// The number of components.
    pub fn len(&self) -> (len: usize)
        requires
            self.wf(),
        ensures
            len == self.keys().len(),
    {
        self.keys.len()
    }

    /// Whether the pack holds a component of the type `key`.
    pub fn contains(&self, key: TypeKey) -> (res: bool)
        ensures
            res == self.keys().contains(key),
    {
        let mut i: usize = 0;
        while i < self.keys.len()
            invariant
                i <= self.keys@.len(),
                forall|j: int| 0 <= j < i ==> self.keys@[j] != key,
            decreases self.keys@.len() - i,
        {
            if self.keys[i] == key {
                return true;
            }
            i += 1;
        }
        false
    }

    /// Adds a component of the type `key`, unless the pack holds one of
    /// that type: then the pack stays as it is and `value` comes back.
    pub fn push(&mut self, key: TypeKey, value: T) -> (res: Result<(), T>)
        requires
            old(self).wf(),
        ensures
            final(self).wf(),
            old(self).keys().contains(key) ==> res == Err::<(), T>(value) && final(self).keys()
                == old(self).keys() && final(self).values() == old(self).values(),
            !old(self).keys().contains(key) ==> res.is_ok() && final(self).keys() == old(
                self,
            ).keys().push(key) && final(self).values() == old(self).values().push(value),
    {
        if self.contains(key) {
            Err(value)
        } else {
            self.keys.push(key);
            self.values.push(value);
            Ok(())
        }
    }

    /// The signature of the pack: the set of its component types.
    pub fn set(&self) -> (set: ComponentSet)
        ensures
            set@ == self.keys().to_set(),
    {
        let mut ids: HashSet<TypeKey> = HashSet::new();
        let mut i: usize = 0;
        while i < self.keys.len()
            invariant
                i <= self.keys@.len(),
                ids@ == self.keys@.take(i as int).to_set(),
            decreases self.keys@.len() - i,
        {
            proof {
                assert(self.keys@.take(i + 1) == self.keys@.take(i as int).push(self.keys@[i as int]));
                self.keys@.take(i as int).lemma_push_to_set_commute(self.keys@[i as int]);
            }
            ids.insert(self.keys[i]);
            i += 1;
        }
        assert(self.keys@.take(self.keys@.len() as int) == self.keys@);
        ComponentSet { ids }
    }

    /// Stores each component in the column of its type, as the entry of
    /// `entity`; a column that is missing is registered first. None of the
    /// columns may be borrowed or hold an entry of `entity` already.
    pub fn store(self, entity: Entity, allocator: &mut ComponentStorageAllocator<T>)
        requires
            self.wf(),
            old(allocator).wf(),
            forall|key: TypeKey|
                self.keys().contains(key) && old(allocator).has(key) ==> old(allocator)@[key].borrow
                    == 0 && !old(allocator)@[key].ids.contains(entity@),
        ensures
            final(allocator).wf(),
            final(allocator)@ == stored(old(allocator)@, self.keys(), self.values(), entity@),
    {
        let mut keys = self.keys;
        let mut values = self.values;
        let ghost all_keys = keys@;
        let ghost all_values = values@;
        let ghost before = allocator@;
        let id = entity.id();
        assert(allocator@ =~= stored(before, all_keys.skip(all_keys.len() as int), all_values.skip(
            all_keys.len() as int,
        ), id));
        while keys.len() > 0
            invariant
                keys@.len() == values@.len(),
                keys@.len() <= all_keys.len(),
                keys@ == all_keys.take(keys@.len() as int),
                values@ == all_values.take(keys@.len() as int),
                all_keys.len() == all_values.len(),
                all_keys.no_duplicates(),
                allocator.wf(),
                id == entity@,
                forall|key: TypeKey|
                    all_keys.contains(key) && before.contains_key(key) ==> before[key].borrow == 0
                        && !before[key].ids.contains(id),
                allocator@ == stored(
                    before,
                    all_keys.skip(keys@.len() as int),
                    all_values.skip(keys@.len() as int),
                    id,
                ),
            decreases keys@.len(),
        {
            let ghost n = keys@.len() as int;
            let ghost now = allocator@;
            let key = keys.pop().unwrap();
            let value = values.pop().unwrap();
            let ghost done = all_keys.skip(n);
            let ghost rest = all_keys.skip(n - 1);
            proof {
                assert(key == all_keys[n - 1]);
                assert(value == all_values[n - 1]);
                assert(!done.contains(key)) by {
                    if done.contains(key) {
                        let j = choose|j: int| 0 <= j < done.len() && done[j] == key;
                        assert(all_keys[n + j] == key);
                    }
                }
                assert(all_keys.contains(key));
                assert(rest[0] == key);
                assert(rest.contains(key));
                assert(now.contains_key(key) <==> before.contains_key(key));
                if now.contains_key(key) {
                    assert(now[key] == before[key]);
                }
            }
            let guard = allocator.get_mut_or_register(key);
            match allocator.storage_mut(&guard) {
                Some(column) => match column.push(id, value) {
                    Ok(_) => {},
                    Err(_) => vstd::pervasive::unreached(),
                },
                None => vstd::pervasive::unreached(),
            }
            allocator.release_mut(guard);
            proof {
                let target = stored(before, rest, all_values.skip(n - 1), id);
                assert forall|k: TypeKey| rest.contains(k) <==> (k == key || done.contains(k)) by {
                    if rest.contains(k) {
                        let j = choose|j: int| 0 <= j < rest.len() && rest[j] == k;
                        if j > 0 {
                            assert(done[j - 1] == k);
                        }
                    }
                    if done.contains(k) {
                        let j = choose|j: int| 0 <= j < done.len() && done[j] == k;
                        assert(rest[j + 1] == k);
                    }
                }
                assert forall|k: TypeKey| done.contains(k) implies all_values.skip(n - 1)[rest.index_of(
                    k,
                )] == all_values.skip(n)[done.index_of(k)] by {
                    let j = done.index_of(k);
                    assert(0 <= j < done.len() && done[j] == k);
                    let r = rest.index_of(k);
                    assert(0 <= r < rest.len() && rest[r] == k);
                    assert(all_keys[n - 1 + r] == k);
                    assert(all_keys[n + j] == k);
                    assert(r == j + 1);
                }
                assert(rest.index_of(key) == 0) by {
                    let r = rest.index_of(key);
                    assert(0 <= r < rest.len() && rest[r] == key);
                    assert(all_keys[n - 1 + r] == key);
                }
                assert(allocator@ =~= target);
            }
        }
        proof {
            assert(all_keys.skip(0) == all_keys);
            assert(all_values.skip(0) == all_values);
        }
    }
}

} // verus!
