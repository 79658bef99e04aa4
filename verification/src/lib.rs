//! A small runtime core: entities that hold components in the order of
//! their priorities, transforms that form a hierarchy, and a resource
//! cache with a chain of cached processing stages.

pub mod component;
pub mod components;
pub mod object;
pub mod resource_manager;
