//! Entity identity.

use std::cmp::Ordering;
use vstd::prelude::*;
use vstd::std_specs::cmp::PartialOrdSpecImpl;

verus! {

/// The integer that identifies an entity.
pub type EntityId = u64;

/// Reserved for generational identifiers; entities are never recycled.
pub type EntityGen = u64;

/// An opaque handle to an entity. Two handles are equal exactly when their
/// identifiers are equal, and they are ordered as their identifiers are.
#[derive(Copy, Clone, PartialEq, Eq, Structural, Ord, Debug, Default)]
pub struct Entity {
    pub id: EntityId,
}

impl View for Entity {
    type V = EntityId;

    open spec fn view(&self) -> EntityId {
        self.id
    }
}

impl PartialOrd for Entity {
    /// Entities are ordered by their identifiers.
    fn partial_cmp(&self, other: &Self) -> (res: Option<Ordering>) {
        if self.id < other.id {
            Some(Ordering::Less)
        } else if self.id == other.id {
            Some(Ordering::Equal)
        } else {
            Some(Ordering::Greater)
        }
    }
}

impl PartialOrdSpecImpl for Entity {
    open spec fn obeys_partial_cmp_spec() -> bool {
        true
    }

    open spec fn partial_cmp_spec(&self, other: &Self) -> Option<Ordering> {
        if self.id < other.id {
            Some(Ordering::Less)
        } else if self.id == other.id {
            Some(Ordering::Equal)
        } else {
            Some(Ordering::Greater)
        }
    }
}

impl Entity {
    /// Wraps an identifier.
    pub fn new(id: EntityId) -> (entity: Self)
        ensures
            entity@ == id,
    {
        Self { id }
    }

    /// The identifier behind the handle.
    pub fn id(&self) -> (id: EntityId)
        ensures
            id == self@,
    {
        self.id
    }
}

} // verus!
