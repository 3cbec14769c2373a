//! An entity-component-system core: per-type component columns and resource
//! slots behind dynamically tracked borrows, archetype bookkeeping, joins
//! over columns, and the decision logic of a system dispatcher.
//!
//! Component and resource types are named by a [`TypeKey`]; a world is
//! generic in the type of its resources and in the type of its components.
//!
//! Borrows are counted, not held: a granted borrow hands out a guard, which
//! is a token, and the counter goes back when the guard is handed back. The
//! library itself runs on one thread. A host that wants worker threads lets
//! each of them call [`dispatch::Dispatcher::step`] under a lock of its own
//! and do what the returned action says.

pub mod archetype;
pub mod cell;
pub mod component;
pub mod entity;
pub mod resource;
mod seqs;
pub mod storage;
pub mod system;
pub mod world;

pub use archetype::Archetype;
pub use component::{Component, ComponentSet, ComponentTuple, TypeKey};
pub use entity::{Entity, EntityGen, EntityId};
pub use resource::{Resource, ResourceTuple};
pub use storage::{ReadComponent, ReadResource, WriteComponent, WriteResource};
pub use system::{dispatch, System};
pub use world::{query, World};
