//! A bindless resource registry: stable integer handles for GPU resources,
//! recycled through a free list, with descriptor writes batched until a flush.
//!
//! Besides the registry, the library holds the choices a renderer makes from
//! what the driver reports: the swapchain's format, presentation mode,
//! extent and image count, the queue families, and whether the required
//! extensions and layers are available.

pub mod model;
pub mod history;
pub mod descriptor_table;
pub mod resource_table;
pub mod swapchain;
pub mod queue_family;
pub mod names;
