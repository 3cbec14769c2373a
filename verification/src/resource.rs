//! Resource packs.

use vstd::prelude::*;

use crate::component::TypeKey;
use crate::storage::resource::{ResourceStorageAllocator, SlotView};

verus! {

/// What a resource type must be: free to be sent to another thread and to
/// be reached from several threads at once.
pub trait Resource: Send + Sync + 'static {

}

impl<T: Send + Sync + 'static> Resource for T {

}

/// The registry view after the resources `values`, of the types `keys`,
/// were registered: each gets a slot of its own, free of borrows; the other
/// slots stay as they are.
pub open spec fn with_resources<T>(
    slots: Map<TypeKey, SlotView<T>>,
    keys: Seq<TypeKey>,
    values: Seq<T>,
) -> Map<TypeKey, SlotView<T>> {
    Map::new(
        |key: TypeKey| slots.contains_key(key) || keys.contains(key),
        |key: TypeKey|
            if keys.contains(key) {
                SlotView { borrow: 0, value: values[keys.index_of(key)] }
            } else {
                slots[key]
            },
    )
}

/// The resources that a world is given at once: at most one of each
/// resource type.
#[derive(Debug)]
pub struct ResourceTuple<T> {
    keys: Vec<TypeKey>,
    values: Vec<T>,
}

impl<T> ResourceTuple<T> {
    /// The resource types, in the order in which they were added.
    pub closed spec fn keys(&self) -> Seq<TypeKey> {
        self.keys@
    }

    /// The resource values; `values()[i]` is of the type `keys()[i]`.
    pub closed spec fn values(&self) -> Seq<T> {
        self.values@
    }

    /// The pack's invariant: one value per type, and no type twice.
    pub open spec fn wf(&self) -> bool {
        &&& self.keys().len() == self.values().len()
        &&& self.keys().no_duplicates()
    }

    /// The empty pack.
    pub fn new() -> (tuple: Self)
        ensures
            tuple.wf(),
            tuple.keys() == Seq::<TypeKey>::empty(),
            tuple.values() == Seq::<T>::empty(),
    {
        Self { keys: Vec::new(), values: Vec::new() }
    }

    /// The pack of one resource.
    pub fn single(key: TypeKey, value: T) -> (tuple: Self)
        ensures
            tuple.wf(),
            tuple.keys() == seq![key],
            tuple.values() == seq![value],
    {
        let mut tuple = Self { keys: Vec::new(), values: Vec::new() };
        tuple.keys.push(key);
        tuple.values.push(value);
        assert(tuple.keys@ =~= seq![key]);
        assert(tuple.values@ =~= seq![value]);
        tuple
    }

    /// The number of resources.
    pub fn len(&self) -> (len: usize)
        requires
            self.wf(),
        ensures
            len == self.keys().len(),
    {
        self.keys.len()
    }

    /// Whether the pack holds a resource of the type `key`.
    pub fn contains(&self, key: TypeKey) -> (res: bool)
        ensures
            res == self.keys().contains(key),
    {
        let mut i: usize = 0;
        while i < self.keys.len()
            invariant
                i <= self.keys@.len(),
                forall|j: int| 0 <= j < i ==> self.keys@[j] != key,
            decreases self.keys@.len() - i,
        {
            if self.keys[i] == key {
                return true;
            }
            i += 1;
        }
        false
    }

    /// Adds a resource of the type `key`, unless the pack holds one of that
    /// type: then the pack stays as it is and `value` comes back.
    pub fn push(&mut self, key: TypeKey, value: T) -> (res: Result<(), T>)
        requires
            old(self).wf(),
        ensures
            final(self).wf(),
            old(self).keys().contains(key) ==> res == Err::<(), T>(value) && final(self).keys()
                == old(self).keys() && final(self).values() == old(self).values(),
            !old(self).keys().contains(key) ==> res.is_ok() && final(self).keys() == old(
                self,
            ).keys().push(key) && final(self).values() == old(self).values().push(value),
    {
        if self.contains(key) {
            Err(value)
        } else {
            self.keys.push(key);
            self.values.push(value);
            Ok(())
        }
    }

    /// Whether none of the pack's types has a slot in `allocator`.
    pub fn is_new_to(&self, allocator: &ResourceStorageAllocator<T>) -> (res: bool)
        ensures
            res == forall|key: TypeKey| self.keys().contains(key) ==> !allocator.has(key),
    {
        let mut i: usize = 0;
        while i < self.keys.len()
            invariant
                i <= self.keys@.len(),
                forall|j: int| 0 <= j < i ==> !allocator.has(self.keys@[j]),
            decreases self.keys@.len() - i,
        {
            if allocator.contains(self.keys[i]) {
                assert(self.keys@.contains(self.keys@[i as int]));
                return false;
            }
            i += 1;
        }
        true
    }

    /// Registers each resource under its type. None of the types may have a
    /// slot already.
    pub fn store(self, allocator: &mut ResourceStorageAllocator<T>)
        requires
            self.wf(),
            forall|key: TypeKey| self.keys().contains(key) ==> !old(allocator).has(key),
        ensures
            final(allocator)@ == with_resources(old(allocator)@, self.keys(), self.values()),
    {
        let mut keys = self.keys;
        let mut values = self.values;
        let ghost all_keys = keys@;
        let ghost all_values = values@;
        let ghost before = allocator@;
        assert(allocator@ =~= with_resources(
            before,
            all_keys.skip(all_keys.len() as int),
            all_values.skip(all_keys.len() as int),
        ));
        while keys.len() > 0
            invariant
                keys@.len() == values@.len(),
                keys@.len() <= all_keys.len(),
                keys@ == all_keys.take(keys@.len() as int),
                values@ == all_values.take(keys@.len() as int),
                all_keys.len() == all_values.len(),
                all_keys.no_duplicates(),
                forall|key: TypeKey| all_keys.contains(key) ==> !before.contains_key(key),
                allocator@ == with_resources(
                    before,
                    all_keys.skip(keys@.len() as int),
                    all_values.skip(keys@.len() as int),
                ),
            decreases keys@.len(),
        {
            let ghost n = keys@.len() as int;
            let key = keys.pop().unwrap();
            let value = values.pop().unwrap();
            let ghost done = all_keys.skip(n);
            let ghost rest = all_keys.skip(n - 1);
            proof {
                assert(key == all_keys[n - 1]);
                assert(!done.contains(key)) by {
                    if done.contains(key) {
                        let j = choose|j: int| 0 <= j < done.len() && done[j] == key;
                        assert(all_keys[n + j] == key);
                    }
                }
                assert(all_keys.contains(key));
            }
            if !allocator.register(key, value) {
                vstd::pervasive::unreached::<()>();
            }
            proof {
                let target = with_resources(before, rest, all_values.skip(n - 1));
                assert(rest[0] == key);
                assert forall|k: TypeKey| rest.contains(k) <==> (k == key || done.contains(k)) by {
                    if rest.contains(k) {
                        let j = choose|j: int| 0 <= j < rest.len() && rest[j] == k;
                        if j > 0 {
                            assert(done[j - 1] == k);
                        }
                    }
                    if done.contains(k) {
                        let j = choose|j: int| 0 <= j < done.len() && done[j] == k;
                        assert(rest[j + 1] == k);
                    }
                }
                assert forall|k: TypeKey| done.contains(k) implies all_values.skip(n - 1)[rest.index_of(
                    k,
                )] == all_values.skip(n)[done.index_of(k)] by {
                    let j = done.index_of(k);
                    assert(0 <= j < done.len() && done[j] == k);
                    let r = rest.index_of(k);
                    assert(0 <= r < rest.len() && rest[r] == k);
                    assert(all_keys[n - 1 + r] == k);
                    assert(all_keys[n + j] == k);
                    assert(r == j + 1);
                }
                assert(rest.index_of(key) == 0) by {
                    let r = rest.index_of(key);
                    assert(0 <= r < rest.len() && rest[r] == key);
                    assert(all_keys[n - 1 + r] == key);
                }
                assert(allocator@ =~= target);
            }
        }
        proof {
            assert(all_keys.skip(0) == all_keys);
            assert(all_values.skip(0) == all_values);
        }
    }
}

} // verus!
