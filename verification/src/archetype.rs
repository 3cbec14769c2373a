//! Archetypes: the entities that share one signature.

use vstd::prelude::*;
use vstd::std_specs::iter::IteratorSpec;

use crate::component::{ComponentSet, TypeKey};
use crate::entity::Entity;

verus! {

/// The entities that carry exactly the component types of one signature.
#[derive(Debug)]
pub struct Archetype {
    entities: Vec<Entity>,
    components: ComponentSet,
}

impl Archetype {
    /// The member entities, in the order in which they joined.
    pub closed spec fn members(&self) -> Seq<Entity> {
        self.entities@
    }

    /// The signature, fixed when the archetype is made.
    pub closed spec fn signature(&self) -> Set<TypeKey> {
        self.components@
    }

    /// An archetype without members for the signature `components`.
    pub fn new(components: ComponentSet) -> (archetype: Self)
        ensures
            archetype.members() == Seq::<Entity>::empty(),
            archetype.signature() == components@,
    {
        Self { entities: Vec::new(), components }
    }

    /// Appends `entity` to the members.
    pub fn push(&mut self, entity: Entity)
        ensures
            final(self).members() == old(self).members().push(entity),
            final(self).signature() == old(self).signature(),
    {
        self.entities.push(entity);
    }

    /// Takes the last member off, if there is one.
    pub fn pop(&mut self) -> (entity: Option<Entity>)
        ensures
            final(self).signature() == old(self).signature(),
            old(self).members().len() == 0 ==> entity.is_none() && final(self).members() == old(
                self,
            ).members(),
            old(self).members().len() > 0 ==> entity == Some(old(self).members().last())
                && final(self).members() == old(self).members().drop_last(),
    {
        self.entities.pop()
    }

    /// The index of the first occurrence of `entity` among the members.
    fn position(&self, entity: Entity) -> (index: Option<usize>)
        ensures
            match index {
                Some(i) => self.members().index_of_first(entity) == Some(i as int) && i
                    < self.members().len(),
                None => !self.members().contains(entity),
            },
    {
        let mut i: usize = 0;
        while i < self.entities.len()
            invariant
                i <= self.entities@.len(),
                forall|j: int| 0 <= j < i ==> self.entities@[j] != entity,
            decreases self.entities@.len() - i,
        {
            if self.entities[i].id() == entity.id() {
                proof {
                    self.entities@.index_of_first_ensures(entity);
                }
                return Some(i);
            }
            i += 1;
        }
        None
    }

    /// Takes the first occurrence of `entity` out of the members, keeping
    /// the order of the others, and says whether there was one.
    pub fn remove(&mut self, entity: Entity) -> (removed: bool)
        ensures
            final(self).signature() == old(self).signature(),
            removed == old(self).members().contains(entity),
            match old(self).members().index_of_first(entity) {
                Some(i) => final(self).members() == old(self).members().remove(i),
                None => final(self).members() == old(self).members(),
            },
    {
        proof {
            self.entities@.index_of_first_ensures(entity);
        }
        match self.position(entity) {
            Some(index) => {
                self.entities.remove(index);
                true
            },
            None => false,
        }
    }

    /// Whether `entity` is a member.
    pub fn contains(&self, entity: Entity) -> (res: bool)
        ensures
            res == self.members().contains(entity),
    {
        proof {
            self.entities@.index_of_first_ensures(entity);
        }
        self.position(entity).is_some()
    }

    /// The members, in the order in which they joined.
    pub fn entities(&self) -> (entities: &[Entity])
        ensures
            entities@ == self.members(),
    {
        self.entities.as_slice()
    }

    /// A walk over the members, in the order in which they joined.
    pub fn entity_iter(&self) -> (iter: std::slice::Iter<'_, Entity>)
        ensures
            iter.remaining() == self.members().as_ref(),
    {
        self.entities.as_slice().iter()
    }

    /// The signature.
    pub fn components(&self) -> (components: &ComponentSet)
        ensures
            components@ == self.signature(),
    {
        &self.components
    }
}

} // verus!
