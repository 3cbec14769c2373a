//! Storage of component columns and resource slots.

pub mod component;
pub mod join;
pub mod resource;

pub use component::{
    ColumnView, ComponentStorage, ComponentStorageAllocator, Read as ReadComponent,
    Write as WriteComponent,
};
pub use resource::{
    Read as ReadResource, ResourceStorage, ResourceStorageAllocator, SlotView,
    Write as WriteResource,
};
