//! The mathematical model of a world, its invariant, and the state changes
//! that the world's operations make.

use vstd::prelude::*;

use crate::component::{appended, stored, TypeKey};
use crate::entity::{Entity, EntityId};
use crate::seqs::{lemma_push_contains, lemma_push_no_duplicates, lemma_remove_contains};
use crate::storage::component::{registered, ColumnView};
use crate::storage::resource::SlotView;

verus! {

/// What a world shows of one archetype.
pub struct ArchetypeView {
    pub signature: Set<TypeKey>,
    pub members: Seq<Entity>,
}

/// What a world shows of itself.
pub struct WorldView<R, C> {
    /// The archetypes, in the order in which their signatures were first seen.
    pub archetypes: Seq<ArchetypeView>,
    /// The entities, in the order of their creation.
    pub entities: Seq<Entity>,
    /// The component columns by type.
    pub components: Map<TypeKey, ColumnView<C>>,
    /// The resource slots by type.
    pub resources: Map<TypeKey, SlotView<R>>,
    /// The identifier that the next entity gets.
    pub next_id: EntityId,
    /// The borrow counter of the component registry as a whole.
    pub component_lock: usize,
    /// The borrow counter of the resource registry as a whole.
    pub resource_lock: usize,
}

/// Where the first archetype with the signature `signature` stands.
pub open spec fn position_of_signature(archetypes: Seq<ArchetypeView>, signature: Set<TypeKey>) -> Option<
    int,
>
    decreases archetypes.len(),
{
    if archetypes.len() == 0 {
        None
    } else {
        match position_of_signature(archetypes.drop_last(), signature) {
            Some(i) => Some(i),
            None => if archetypes.last().signature == signature {
                Some(archetypes.len() - 1)
            } else {
                None
            },
        }
    }
}

/// Where the first archetype that has `entity` among its members stands.
pub open spec fn home_of(archetypes: Seq<ArchetypeView>, entity: Entity) -> Option<int>
    decreases archetypes.len(),
{
    if archetypes.len() == 0 {
        None
    } else {
        match home_of(archetypes.drop_last(), entity) {
            Some(i) => Some(i),
            None => if archetypes.last().members.contains(entity) {
                Some(archetypes.len() - 1)
            } else {
                None
            },
        }
    }
}

/// `members` without the first occurrence of `entity`.
pub open spec fn members_without(members: Seq<Entity>, entity: Entity) -> Seq<Entity> {
    match members.index_of_first(entity) {
        Some(i) => members.remove(i),
        None => members,
    }
}

/// Where an entity with the signature `signature` belongs: at the first
/// archetype with that signature, or behind the last archetype where there
/// is none yet.
pub open spec fn place_of_signature(archetypes: Seq<ArchetypeView>, signature: Set<TypeKey>) -> int {
    match position_of_signature(archetypes, signature) {
        Some(i) => i,
        None => archetypes.len() as int,
    }
}

/// The archetypes after `entity` joined the one with the signature
/// `signature`, which is appended where there was none.
pub open spec fn joined(archetypes: Seq<ArchetypeView>, signature: Set<TypeKey>, entity: Entity) -> Seq<
    ArchetypeView,
> {
    match position_of_signature(archetypes, signature) {
        Some(i) => archetypes.update(
            i,
            ArchetypeView {
                signature: archetypes[i].signature,
                members: archetypes[i].members.push(entity),
            },
        ),
        None => archetypes.push(ArchetypeView { signature, members: seq![entity] }),
    }
}

/// The archetypes after `entity` left the first one that had it.
pub open spec fn left(archetypes: Seq<ArchetypeView>, entity: Entity) -> Seq<ArchetypeView> {
    match home_of(archetypes, entity) {
        Some(i) => archetypes.update(
            i,
            ArchetypeView {
                signature: archetypes[i].signature,
                members: members_without(archetypes[i].members, entity),
            },
        ),
        None => archetypes,
    }
}

impl<R, C> WorldView<R, C> {
    /// Whether the column of `key` has an entry for the entity `id`.
    pub open spec fn carries(self, id: EntityId, key: TypeKey) -> bool {
        self.components.contains_key(key) && self.components[key].ids.contains(id)
    }

    /// Whether the archetype at `i` has `entity` among its members.
    pub open spec fn member_of(self, i: int, entity: Entity) -> bool {
        0 <= i < self.archetypes.len() && self.archetypes[i].members.contains(entity)
    }

    /// The component types that `entity` carries.
    pub open spec fn signature_of(self, entity: Entity) -> Set<TypeKey> {
        Set::new(|key: TypeKey| self.carries(entity@, key))
    }

    /// The invariant of a world.
    pub open spec fn wf(self) -> bool {
        &&& forall|key: TypeKey| #[trigger]
            self.components.contains_key(key) ==> self.components[key].wf()
        &&& self.entities.no_duplicates()
        &&& forall|e: Entity| #[trigger] self.entities.contains(e) ==> e@ < self.next_id
        &&& forall|i: int, j: int|
            0 <= i < j < self.archetypes.len() ==> (#[trigger] self.archetypes[i]).signature != (
            #[trigger] self.archetypes[j]).signature
        &&& forall|i: int|
            0 <= i < self.archetypes.len() ==> (#[trigger] self.archetypes[i]).members.no_duplicates()
        &&& forall|i: int, e: Entity| #[trigger] self.member_of(i, e) ==> self.entities.contains(e)
        &&& forall|e: Entity| #[trigger]
            self.entities.contains(e) ==> exists|i: int| self.member_of(i, e)
        &&& forall|i: int, j: int, e: Entity|
            #[trigger] self.member_of(i, e) && #[trigger] self.member_of(j, e) ==> i == j
        &&& forall|i: int, e: Entity, key: TypeKey|
            #[trigger] self.member_of(i, e) ==> (self.archetypes[i].signature.contains(key)
                <==> #[trigger] self.carries(e@, key))
        &&& forall|id: EntityId, key: TypeKey| #[trigger]
            self.carries(id, key) ==> self.entities.contains(Entity { id })
    }

    /// The world after an entity was created with the components `values`
    /// of the types `keys`.
    pub open spec fn created(self, keys: Seq<TypeKey>, values: Seq<C>) -> Self {
        let entity = Entity { id: self.next_id };
        WorldView {
            archetypes: joined(self.archetypes, keys.to_set(), entity),
            entities: self.entities.push(entity),
            components: stored(self.components, keys, values, self.next_id),
            resources: self.resources,
            next_id: (self.next_id + 1) as EntityId,
            component_lock: self.component_lock,
            resource_lock: self.resource_lock,
        }
    }

    /// The world after one entity was created for each pack of `packs`, in
    /// their order.
    pub open spec fn created_all(self, packs: Seq<(Seq<TypeKey>, Seq<C>)>) -> Self
        decreases packs.len(),
    {
        if packs.len() == 0 {
            self
        } else {
            self.created_all(packs.drop_last()).created(packs.last().0, packs.last().1)
        }
    }

    /// Whether `entity` can be given components of the types `keys`: it is
    /// in the world and carries none of them.
    pub open spec fn can_extend(self, entity: Entity, keys: Seq<TypeKey>) -> bool {
        match home_of(self.archetypes, entity) {
            Some(i) => self.archetypes[i].signature.disjoint(keys.to_set()),
            None => false,
        }
    }

    /// The world after `entity` was given the components `values` of the
    /// types `keys`.
    pub open spec fn extended(self, entity: Entity, keys: Seq<TypeKey>, values: Seq<C>) -> Self {
        let signature = self.archetypes[home_of(self.archetypes, entity).unwrap()].signature;
        WorldView {
            archetypes: joined(left(self.archetypes, entity), signature.union(keys.to_set()), entity),
            entities: self.entities,
            components: stored(self.components, keys, values, entity@),
            resources: self.resources,
            next_id: self.next_id,
            component_lock: self.component_lock,
            resource_lock: self.resource_lock,
        }
    }

    /// The world after `entity` was removed with all its components.
    pub open spec fn removed(self, entity: Entity) -> Self {
        WorldView {
            archetypes: left(self.archetypes, entity),
            entities: members_without(self.entities, entity),
            components: self.components.map_values(|column: ColumnView<C>| column.without(entity@)),
            resources: self.resources,
            next_id: self.next_id,
            component_lock: self.component_lock,
            resource_lock: self.resource_lock,
        }
    }
}

/// What `position_of_signature` finds: the first archetype with the
/// signature, or none where no archetype has it.
pub proof fn lemma_position_of_signature(archetypes: Seq<ArchetypeView>, signature: Set<TypeKey>)
    ensures
        match position_of_signature(archetypes, signature) {
            Some(i) => 0 <= i < archetypes.len() && archetypes[i].signature == signature
                && forall|j: int| 0 <= j < i ==> (#[trigger] archetypes[j]).signature != signature,
            None => forall|j: int|
                0 <= j < archetypes.len() ==> (#[trigger] archetypes[j]).signature != signature,
        },
    decreases archetypes.len(),
{
    if archetypes.len() > 0 {
        lemma_position_of_signature(archetypes.drop_last(), signature);
        assert forall|j: int| 0 <= j < archetypes.len() - 1 implies archetypes.drop_last()[j]
            == archetypes[j] by {}
        match position_of_signature(archetypes.drop_last(), signature) {
            Some(i) => {
                assert(archetypes.drop_last()[i] == archetypes[i]);
                assert forall|j: int| 0 <= j < i implies (#[trigger] archetypes[j]).signature
                    != signature by {
                    assert(archetypes.drop_last()[j] == archetypes[j]);
                }
            },
            None => {
                assert forall|j: int| 0 <= j < archetypes.len() - 1 implies (
                #[trigger] archetypes[j]).signature != signature by {
                    assert(archetypes.drop_last()[j] == archetypes[j]);
                }
            },
        }
    }
}

/// What `home_of` finds: the first archetype that has the entity, or none
/// where no archetype has it.
pub proof fn lemma_home_of(archetypes: Seq<ArchetypeView>, entity: Entity)
    ensures
        match home_of(archetypes, entity) {
            Some(i) => 0 <= i < archetypes.len() && archetypes[i].members.contains(entity)
                && forall|j: int|
                0 <= j < i ==> !(#[trigger] archetypes[j]).members.contains(entity),
            None => forall|j: int|
                0 <= j < archetypes.len() ==> !(#[trigger] archetypes[j]).members.contains(entity),
        },
    decreases archetypes.len(),
{
    if archetypes.len() > 0 {
        lemma_home_of(archetypes.drop_last(), entity);
        match home_of(archetypes.drop_last(), entity) {
            Some(i) => {
                assert(archetypes.drop_last()[i] == archetypes[i]);
                assert forall|j: int| 0 <= j < i implies !(#[trigger] archetypes[j]).members.contains(
                    entity,
                ) by {
                    assert(archetypes.drop_last()[j] == archetypes[j]);
                }
            },
            None => {
                assert forall|j: int| 0 <= j < archetypes.len() - 1 implies !(
                #[trigger] archetypes[j]).members.contains(entity) by {
                    assert(archetypes.drop_last()[j] == archetypes[j]);
                }
            },
        }
    }
}

/// What the columns hold after components were stored for the entity `id`.
pub proof fn lemma_stored<C>(
    columns: Map<TypeKey, ColumnView<C>>,
    keys: Seq<TypeKey>,
    values: Seq<C>,
    id: EntityId,
)
    requires
        forall|key: TypeKey| #[trigger] columns.contains_key(key) ==> columns[key].wf(),
        forall|key: TypeKey|
            keys.contains(key) && #[trigger] columns.contains_key(key) ==> !columns[key].ids.contains(
                id,
            ),
    ensures
        forall|key: TypeKey| #[trigger]
            stored(columns, keys, values, id).contains_key(key) ==> stored(
                columns,
                keys,
                values,
                id,
            )[key].wf(),
        forall|other: EntityId, key: TypeKey|
            (stored(columns, keys, values, id).contains_key(key) && #[trigger] stored(
                columns,
                keys,
                values,
                id,
            )[key].ids.contains(other)) <==> ((columns.contains_key(key) && columns[key].ids.contains(
                other,
            )) || (other == id && keys.contains(key))),
{
    let after = stored(columns, keys, values, id);
    assert forall|key: TypeKey| #[trigger] after.contains_key(key) implies after[key].wf() by {
        if keys.contains(key) {
            let column = registered(columns, key)[key];
            assert(column.wf());
            lemma_push_no_duplicates(column.ids, id);
        }
    }
    assert forall|other: EntityId, key: TypeKey|
        (after.contains_key(key) && #[trigger] after[key].ids.contains(other)) <==> ((
        columns.contains_key(key) && columns[key].ids.contains(other)) || (other == id
            && keys.contains(key))) by {
        if keys.contains(key) {
            let column = registered(columns, key)[key];
            lemma_push_contains(column.ids, id);
        }
    }
}

/// Storing components leaves every borrow counter as it was; a column that
/// is new is free of borrows.
pub proof fn lemma_stored_borrows<C>(
    columns: Map<TypeKey, ColumnView<C>>,
    keys: Seq<TypeKey>,
    values: Seq<C>,
    id: EntityId,
)
    ensures
        forall|key: TypeKey| #[trigger]
            stored(columns, keys, values, id).contains_key(key) ==> stored(
                columns,
                keys,
                values,
                id,
            )[key].borrow == if columns.contains_key(key) {
                columns[key].borrow
            } else {
                0
            },
{
}

/// What the archetypes are after an entity joined one of them.
pub proof fn lemma_joined(archetypes: Seq<ArchetypeView>, signature: Set<TypeKey>, entity: Entity)
    ensures
        ({
            let after = joined(archetypes, signature, entity);
            let target = place_of_signature(archetypes, signature);
            &&& 0 <= target < after.len()
            &&& archetypes.len() <= after.len() <= archetypes.len() + 1
            &&& target < archetypes.len() <==> after.len() == archetypes.len()
            &&& after[target].signature == signature
            &&& forall|i: int|
                0 <= i < archetypes.len() ==> (#[trigger] after[i]).signature
                    == archetypes[i].signature
            &&& forall|i: int|
                0 <= i < archetypes.len() && i != target ==> #[trigger] after[i] == archetypes[i]
            &&& forall|e: Entity|
                #![trigger after[target].members.contains(e)]
                after[target].members.contains(e) <==> (e == entity || (target < archetypes.len()
                    && archetypes[target].members.contains(e)))
            &&& target < archetypes.len() ==> after[target].members
                == archetypes[target].members.push(entity)
            &&& target == archetypes.len() ==> after[target].members == seq![entity]
                && forall|i: int|
                0 <= i < archetypes.len() ==> (#[trigger] archetypes[i]).signature != signature
        }),
{
    lemma_position_of_signature(archetypes, signature);
    let after = joined(archetypes, signature, entity);
    match position_of_signature(archetypes, signature) {
        Some(i) => {
            lemma_push_contains(archetypes[i].members, entity);
        },
        None => {
            let target = archetypes.len() as int;
            assert(after[target].members == seq![entity]);
            assert forall|e: Entity| after[target].members.contains(e) <==> e == entity by {
                if e == entity {
                    assert(seq![entity][0] == e);
                }
            }
        },
    }
}

/// What the archetypes are after an entity left the one that had it. Each
/// archetype may hold an entity once at most.
pub proof fn lemma_left(archetypes: Seq<ArchetypeView>, entity: Entity)
    requires
        forall|i: int|
            0 <= i < archetypes.len() ==> (#[trigger] archetypes[i]).members.no_duplicates(),
    ensures
        ({
            let after = left(archetypes, entity);
            &&& after.len() == archetypes.len()
            &&& forall|i: int|
                0 <= i < archetypes.len() ==> (#[trigger] after[i]).signature
                    == archetypes[i].signature
            &&& forall|i: int|
                0 <= i < archetypes.len() && Some(i) != home_of(archetypes, entity)
                    ==> #[trigger] after[i] == archetypes[i]
            &&& forall|i: int|
                0 <= i < archetypes.len() ==> (#[trigger] after[i]).members.no_duplicates()
            &&& forall|i: int, e: Entity|
                #![trigger after[i].members.contains(e)]
                0 <= i < archetypes.len() ==> (after[i].members.contains(e) <==> (
                archetypes[i].members.contains(e) && !(e == entity && Some(i) == home_of(
                    archetypes,
                    entity,
                ))))
        }),
{
    lemma_home_of(archetypes, entity);
    let after = left(archetypes, entity);
    match home_of(archetypes, entity) {
        Some(h) => {
            let members = archetypes[h].members;
            members.index_of_first_ensures(entity);
            let at = members.index_of_first(entity).unwrap();
            lemma_remove_contains(members, at);
            assert forall|i: int, e: Entity|
                #![trigger after[i].members.contains(e)]
                0 <= i < archetypes.len() implies (after[i].members.contains(e) <==> (
            archetypes[i].members.contains(e) && !(e == entity && Some(i) == home_of(
                archetypes,
                entity,
            )))) by {
                if i == h {
                    assert(after[i].members == members.remove(at));
                }
            }
        },
        None => {},
    }
}

impl<R, C> WorldView<R, C> {
    /// Whether `other` has the entities of `self`, in the same archetypes
    /// and with entries in the same columns at the same places. Values,
    /// borrow counters and resources may differ.
    pub open spec fn same_structure(self, other: Self) -> bool {
        &&& other.archetypes == self.archetypes
        &&& other.entities == self.entities
        &&& other.next_id == self.next_id
        &&& other.components.dom() == self.components.dom()
        &&& forall|key: TypeKey| #[trigger]
            self.components.contains_key(key) ==> other.components[key].ids
                == self.components[key].ids && other.components[key].values.len()
                == self.components[key].values.len()
    }

    /// The invariant speaks of the structure only.
    pub proof fn lemma_same_structure_wf(self, other: Self)
        requires
            self.wf(),
            self.same_structure(other),
        ensures
            other.wf(),
    {
        assert forall|i: int, e: Entity| #[trigger]
            other.member_of(i, e) <==> self.member_of(i, e) by {}
        assert forall|id: EntityId, key: TypeKey| #[trigger]
            other.carries(id, key) <==> self.carries(id, key) by {
            if self.components.contains_key(key) {
                assert(other.components.contains_key(key));
            }
            if other.components.contains_key(key) {
                assert(self.components.contains_key(key));
            }
        }
        assert forall|key: TypeKey| #[trigger] other.components.contains_key(key) implies
            other.components[key].wf() by {
            assert(self.components.contains_key(key));
            assert(self.components[key].wf());
        }
        assert forall|e: Entity| #[trigger] other.entities.contains(e) implies exists|i: int|
            other.member_of(i, e) by {
            let i = choose|i: int| self.member_of(i, e);
            assert(other.member_of(i, e));
        }
        assert forall|i: int, e: Entity, key: TypeKey| #[trigger]
            other.member_of(i, e) implies (other.archetypes[i].signature.contains(key)
            <==> #[trigger] other.carries(e@, key)) by {
            assert(self.member_of(i, e));
            assert(self.archetypes[i].signature.contains(key) <==> self.carries(e@, key));
        }
        assert forall|id: EntityId, key: TypeKey| #[trigger]
            other.carries(id, key) implies other.entities.contains(Entity { id }) by {
            assert(self.carries(id, key));
        }
        assert forall|i: int, j: int, e: Entity|
            #[trigger] other.member_of(i, e) && #[trigger] other.member_of(j, e) implies i == j by {
            assert(self.member_of(i, e) && self.member_of(j, e));
        }
        assert forall|i: int, e: Entity| #[trigger]
            other.member_of(i, e) implies other.entities.contains(e) by {
            assert(self.member_of(i, e));
        }
    }

    /// The identifier that the next entity gets is new: nothing in the
    /// world bears it.
    pub proof fn lemma_next_id_is_fresh(self)
        requires
            self.wf(),
        ensures
            !self.entities.contains(Entity { id: self.next_id }),
            forall|i: int| !self.member_of(i, Entity { id: self.next_id }),
            forall|key: TypeKey| !self.carries(self.next_id, key),
    {
        let entity = Entity { id: self.next_id };
        if self.entities.contains(entity) {
            assert(entity@ < self.next_id);
        }
        assert forall|i: int| !self.member_of(i, entity) by {
            if self.member_of(i, entity) {
                assert(self.entities.contains(entity));
            }
        }
        assert forall|key: TypeKey| !self.carries(self.next_id, key) by {
            if self.carries(self.next_id, key) {
                assert(self.entities.contains(entity));
            }
        }
    }

    /// Creating an entity keeps the invariant.
    pub proof fn lemma_created_wf(self, keys: Seq<TypeKey>, values: Seq<C>)
        requires
            self.wf(),
            self.next_id < u64::MAX,
        ensures
            self.created(keys, values).wf(),
    {
        let entity = Entity { id: self.next_id };
        let after = self.created(keys, values);
        self.lemma_next_id_is_fresh();
        assert forall|key: TypeKey|
            keys.contains(key) && #[trigger] self.components.contains_key(key)
                implies !self.components[key].ids.contains(self.next_id) by {
            assert(!self.carries(self.next_id, key));
        }
        lemma_stored(self.components, keys, values, self.next_id);
        lemma_joined(self.archetypes, keys.to_set(), entity);
        lemma_push_contains(self.entities, entity);
        lemma_push_no_duplicates(self.entities, entity);
        let target = place_of_signature(self.archetypes, keys.to_set());
        assert forall|i: int, e: Entity| #[trigger]
            after.member_of(i, e) <==> (self.member_of(i, e) || (i == target && e == entity)) by {
            let joined_archetypes = joined(self.archetypes, keys.to_set(), entity);
            assert(after.archetypes == joined_archetypes);
            if 0 <= i < after.archetypes.len() {
                if i != target {
                    assert(joined_archetypes[i] == self.archetypes[i]);
                } else {
                    assert(joined_archetypes[target].members.contains(e) <==> (e == entity || (
                    target < self.archetypes.len() && self.archetypes[target].members.contains(e))));
                }
            }
        }
        assert forall|id: EntityId, key: TypeKey| #[trigger]
            after.carries(id, key) <==> (self.carries(id, key) || (id == self.next_id
                && keys.contains(key))) by {
            if after.components.contains_key(key) {
                assert(after.components[key].ids.contains(id) <==> ((self.components.contains_key(
                    key,
                ) && self.components[key].ids.contains(id)) || (id == self.next_id && keys.contains(
                    key,
                ))));
            }
        }
        assert forall|i: int, j: int| 0 <= i < j < after.archetypes.len() implies (
        #[trigger] after.archetypes[i]).signature != (#[trigger] after.archetypes[j]).signature by {
            if j < self.archetypes.len() {
                assert(self.archetypes[i].signature != self.archetypes[j].signature);
            } else {
                assert(self.archetypes[i].signature != keys.to_set());
            }
        }
        assert forall|i: int| 0 <= i < after.archetypes.len() implies (
        #[trigger] after.archetypes[i]).members.no_duplicates() by {
            if i == target {
                if target < self.archetypes.len() {
                    assert(!self.member_of(target, entity));
                    lemma_push_no_duplicates(self.archetypes[target].members, entity);
                }
            } else {
                assert(self.archetypes[i].members.no_duplicates());
            }
        }
        assert forall|e: Entity| #[trigger] after.entities.contains(e) implies exists|i: int|
            after.member_of(i, e) by {
            if e == entity {
                assert(after.member_of(target, e));
            } else {
                let i = choose|i: int| self.member_of(i, e);
                assert(after.member_of(i, e));
            }
        }
        assert forall|i: int, e: Entity, key: TypeKey| #[trigger]
            after.member_of(i, e) implies (after.archetypes[i].signature.contains(key)
            <==> #[trigger] after.carries(e@, key)) by {
            if self.member_of(i, e) {
                assert(self.entities.contains(e));
                assert(e@ != self.next_id);
                assert(self.archetypes[i].signature.contains(key) <==> self.carries(e@, key));
            } else {
                assert(!self.carries(self.next_id, key));
                assert(keys.to_set().contains(key) <==> keys.contains(key));
            }
        }
        assert forall|id: EntityId, key: TypeKey| #[trigger]
            after.carries(id, key) implies after.entities.contains(Entity { id }) by {
            if self.carries(id, key) {
                assert(self.entities.contains(Entity { id }));
            }
        }
        assert forall|e: Entity| #[trigger] after.entities.contains(e) implies e@
            < after.next_id by {
            if e != entity {
                assert(self.entities.contains(e));
            }
        }
    }

    /// Giving an entity components that it does not carry keeps the
    /// invariant.
    pub proof fn lemma_extended_wf(self, entity: Entity, keys: Seq<TypeKey>, values: Seq<C>)
        requires
            self.wf(),
            self.can_extend(entity, keys),
        ensures
            self.extended(entity, keys, values).wf(),
            self.entities.contains(entity),
    {
        let after = self.extended(entity, keys, values);
        lemma_home_of(self.archetypes, entity);
        let home = home_of(self.archetypes, entity).unwrap();
        let signature = self.archetypes[home].signature;
        let wider = signature.union(keys.to_set());
        assert(self.member_of(home, entity));
        assert(self.entities.contains(entity));
        assert forall|key: TypeKey|
            keys.contains(key) && #[trigger] self.components.contains_key(key)
                implies !self.components[key].ids.contains(entity@) by {
            assert(keys.to_set().contains(key));
            assert(!signature.contains(key));
            assert(signature.contains(key) <==> self.carries(entity@, key));
        }
        lemma_stored(self.components, keys, values, entity@);
        lemma_left(self.archetypes, entity);
        let without = left(self.archetypes, entity);
        lemma_joined(without, wider, entity);
        let target = place_of_signature(without, wider);
        let joined_archetypes = joined(without, wider, entity);
        assert(after.archetypes == joined_archetypes);
        assert forall|i: int, e: Entity| #[trigger]
            after.member_of(i, e) <==> ((self.member_of(i, e) && e != entity) || (i == target && e
                == entity)) by {
            if 0 <= i < after.archetypes.len() {
                if i != target {
                    assert(joined_archetypes[i] == without[i]);
                } else {
                    assert(joined_archetypes[target].members.contains(e) <==> (e == entity || (
                    target < without.len() && without[target].members.contains(e))));
                }
                if i < without.len() {
                    assert(without[i].members.contains(e) <==> (self.archetypes[i].members.contains(
                        e,
                    ) && !(e == entity && Some(i) == home_of(self.archetypes, entity))));
                    if self.member_of(i, e) && e == entity {
                        assert(self.member_of(home, e));
                    }
                }
            }
        }
        assert forall|id: EntityId, key: TypeKey| #[trigger]
            after.carries(id, key) <==> (self.carries(id, key) || (id == entity@ && keys.contains(
                key,
            ))) by {
            if after.components.contains_key(key) {
                assert(after.components[key].ids.contains(id) <==> ((self.components.contains_key(
                    key,
                ) && self.components[key].ids.contains(id)) || (id == entity@ && keys.contains(
                    key,
                ))));
            }
        }
        assert forall|i: int, j: int| 0 <= i < j < after.archetypes.len() implies (
        #[trigger] after.archetypes[i]).signature != (#[trigger] after.archetypes[j]).signature by {
            if j < self.archetypes.len() {
                assert(self.archetypes[i].signature != self.archetypes[j].signature);
                assert(without[i].signature == self.archetypes[i].signature);
                assert(without[j].signature == self.archetypes[j].signature);
            } else {
                assert(without[i].signature != wider);
            }
        }
        assert forall|i: int| 0 <= i < after.archetypes.len() implies (
        #[trigger] after.archetypes[i]).members.no_duplicates() by {
            if i == target {
                if target < without.len() {
                    assert(!without[target].members.contains(entity)) by {
                        if self.member_of(target, entity) {
                            assert(self.member_of(home, entity));
                        }
                    }
                    lemma_push_no_duplicates(without[target].members, entity);
                }
            } else {
                assert(without[i].members.no_duplicates());
            }
        }
        assert forall|e: Entity| #[trigger] after.entities.contains(e) implies exists|i: int|
            after.member_of(i, e) by {
            if e == entity {
                assert(after.member_of(target, e));
            } else {
                let i = choose|i: int| self.member_of(i, e);
                assert(after.member_of(i, e));
            }
        }
        assert forall|i: int, e: Entity, key: TypeKey| #[trigger]
            after.member_of(i, e) implies (after.archetypes[i].signature.contains(key)
            <==> #[trigger] after.carries(e@, key)) by {
            if e == entity {
                assert(i == target);
                assert(signature.contains(key) <==> self.carries(entity@, key));
                assert(keys.to_set().contains(key) <==> keys.contains(key));
            } else {
                assert(self.member_of(i, e));
                assert(e@ != entity@);
                assert(self.archetypes[i].signature.contains(key) <==> self.carries(e@, key));
                assert(without[i].signature == self.archetypes[i].signature);
            }
        }
        assert forall|id: EntityId, key: TypeKey| #[trigger]
            after.carries(id, key) implies after.entities.contains(Entity { id }) by {
            if self.carries(id, key) {
                assert(self.entities.contains(Entity { id }));
            }
        }
        assert forall|i: int, e: Entity| #[trigger]
            after.member_of(i, e) implies after.entities.contains(e) by {
            if e != entity {
                assert(self.member_of(i, e));
            }
        }
        assert forall|i: int, j: int, e: Entity|
            #[trigger] after.member_of(i, e) && #[trigger] after.member_of(j, e) implies i == j by {
            if e != entity {
                assert(self.member_of(i, e) && self.member_of(j, e));
            }
        }
    }

    /// Removing an entity keeps the invariant, and nothing of the entity
    /// stays behind.
    pub proof fn lemma_removed_wf(self, entity: Entity)
        requires
            self.wf(),
        ensures
            self.removed(entity).wf(),
            !self.removed(entity).entities.contains(entity),
            forall|i: int| !self.removed(entity).member_of(i, entity),
            forall|key: TypeKey| !self.removed(entity).carries(entity@, key),
    {
        let after = self.removed(entity);
        lemma_home_of(self.archetypes, entity);
        lemma_left(self.archetypes, entity);
        let without = left(self.archetypes, entity);
        assert forall|i: int, e: Entity| #[trigger]
            after.member_of(i, e) <==> (self.member_of(i, e) && e != entity) by {
            if 0 <= i < self.archetypes.len() {
                assert(without[i].members.contains(e) <==> (self.archetypes[i].members.contains(e)
                    && !(e == entity && Some(i) == home_of(self.archetypes, entity))));
                if self.member_of(i, e) && e == entity {
                    let home = home_of(self.archetypes, entity).unwrap();
                    assert(self.member_of(home, e));
                }
            }
        }
        self.entities.index_of_first_ensures(entity);
        assert forall|e: Entity| #[trigger]
            after.entities.contains(e) <==> (self.entities.contains(e) && e != entity) by {
            match self.entities.index_of_first(entity) {
                Some(at) => {
                    lemma_remove_contains(self.entities, at);
                },
                None => {},
            }
        }
        assert(after.entities.no_duplicates()) by {
            match self.entities.index_of_first(entity) {
                Some(at) => {
                    lemma_remove_contains(self.entities, at);
                },
                None => {},
            }
        }
        assert forall|key: TypeKey| #[trigger] after.components.contains_key(key) implies (
        after.components[key].wf() && forall|id: EntityId|
            after.components[key].ids.contains(id) <==> (self.components[key].ids.contains(id) && id
                != entity@)) by {
            let column = self.components[key];
            assert(self.components.contains_key(key));
            assert(column.wf());
            if column.ids.contains(entity@) {
                let at = column.ids.index_of(entity@);
                assert(0 <= at < column.ids.len() && column.ids[at] == entity@);
                lemma_remove_contains(column.ids, at);
            }
        }
        assert forall|id: EntityId, key: TypeKey| #[trigger]
            after.carries(id, key) <==> (self.carries(id, key) && id != entity@) by {
            if self.components.contains_key(key) {
                assert(after.components.contains_key(key));
            }
        }
        assert forall|i: int, j: int| 0 <= i < j < after.archetypes.len() implies (
        #[trigger] after.archetypes[i]).signature != (#[trigger] after.archetypes[j]).signature by {
            assert(self.archetypes[i].signature != self.archetypes[j].signature);
            assert(without[i].signature == self.archetypes[i].signature);
            assert(without[j].signature == self.archetypes[j].signature);
        }
        assert forall|e: Entity| #[trigger] after.entities.contains(e) implies exists|i: int|
            after.member_of(i, e) by {
            let i = choose|i: int| self.member_of(i, e);
            assert(after.member_of(i, e));
        }
        assert forall|i: int, e: Entity, key: TypeKey| #[trigger]
            after.member_of(i, e) implies (after.archetypes[i].signature.contains(key)
            <==> #[trigger] after.carries(e@, key)) by {
            assert(self.member_of(i, e));
            assert(e@ != entity@);
            assert(self.archetypes[i].signature.contains(key) <==> self.carries(e@, key));
            assert(without[i].signature == self.archetypes[i].signature);
        }
        assert forall|id: EntityId, key: TypeKey| #[trigger]
            after.carries(id, key) implies after.entities.contains(Entity { id }) by {
            assert(self.carries(id, key));
            assert(self.entities.contains(Entity { id }));
        }
        assert forall|i: int, e: Entity| #[trigger]
            after.member_of(i, e) implies after.entities.contains(e) by {
            assert(self.member_of(i, e));
        }
        assert forall|i: int, j: int, e: Entity|
            #[trigger] after.member_of(i, e) && #[trigger] after.member_of(j, e) implies i == j by {
            assert(self.member_of(i, e) && self.member_of(j, e));
        }
        assert forall|e: Entity| #[trigger] after.entities.contains(e) implies e@
            < after.next_id by {
            assert(self.entities.contains(e));
        }
    }

    /// A component that an entity was created with is what the column of
    /// its type then holds for the entity.
    pub proof fn lemma_created_component(self, keys: Seq<TypeKey>, values: Seq<C>, i: int)
        requires
            self.wf(),
            keys.no_duplicates(),
            keys.len() == values.len(),
            0 <= i < keys.len(),
        ensures
            ({
                let after = self.created(keys, values);
                let column = after.components[keys[i]];
                &&& after.carries(self.next_id, keys[i])
                &&& column.values[column.ids.index_of(self.next_id)] == values[i]
            }),
    {
        let after = self.created(keys, values);
        let key = keys[i];
        assert(keys.contains(key));
        assert(keys.index_of(key) == i) by {
            let at = keys.index_of(key);
            assert(0 <= at < keys.len() && keys[at] == key);
        }
        self.lemma_next_id_is_fresh();
        let before = registered(self.components, key)[key];
        assert(before.wf()) by {
            if self.components.contains_key(key) {
                assert(self.components[key].wf());
            }
        }
        assert(!before.ids.contains(self.next_id)) by {
            if self.components.contains_key(key) {
                assert(!self.carries(self.next_id, key));
            }
        }
        let column = after.components[key];
        assert(column == appended(before, self.next_id, values[i]));
        lemma_push_contains(before.ids, self.next_id);
        let at = column.ids.index_of(self.next_id);
        assert(0 <= at < column.ids.len() && column.ids[at] == self.next_id);
        if at < before.ids.len() {
            assert(before.ids[at] == self.next_id);
            assert(before.ids.contains(self.next_id));
        }
    }

    /// Every entity of a world is a member of exactly one archetype, and the
    /// signature of that archetype is the set of the component types whose
    /// column has an entry for the entity.
    pub proof fn lemma_one_archetype(self, entity: Entity)
        requires
            self.wf(),
            self.entities.contains(entity),
        ensures
            home_of(self.archetypes, entity).is_some(),
            forall|i: int|
                self.member_of(i, entity) <==> Some(i) == home_of(self.archetypes, entity),
            self.archetypes[home_of(self.archetypes, entity).unwrap()].signature
                == self.signature_of(entity),
    {
        lemma_home_of(self.archetypes, entity);
        let at = choose|i: int| self.member_of(i, entity);
        assert(self.member_of(at, entity));
        let home = home_of(self.archetypes, entity).unwrap();
        assert(self.member_of(home, entity));
        assert forall|i: int| self.member_of(i, entity) implies Some(i) == home_of(
            self.archetypes,
            entity,
        ) by {
            assert(self.member_of(home, entity));
        }
        assert forall|key: TypeKey|
            self.archetypes[home].signature.contains(key) <==> self.signature_of(entity).contains(
                key,
            ) by {
            assert(self.archetypes[home].signature.contains(key) <==> self.carries(entity@, key));
        }
        assert(self.archetypes[home].signature =~= self.signature_of(entity));
    }
}

} // verus!
