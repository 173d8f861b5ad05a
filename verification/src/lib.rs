//! AethAlloc: size classes, caches, pools, buddy and slab allocators, tag
//! managers and the metadata-offloading ring, with their contracts; the
//! global allocator's decisions in its magazine (`global`) and simple
//! (`simple_cache`) caching modes, those of the C interface (`abi`), and the
//! metrics exporter's (`metrics`, `exporter`).
//!
//! Memory is modelled by addresses (`usize`); what the operating system does
//! (mapping and unmapping pages, freeing memory) is requested by the
//! functions here and carried out by their caller.

pub mod page;
pub mod size_class;
pub mod tag_manager;
pub mod x86;
pub mod cheri;
pub mod mte;
pub mod page_table;
pub mod compactor;
pub mod command;
pub mod ring_buffer;
pub mod support_core;
pub mod magazine;
pub mod global_pool;
pub mod slab;
pub mod thread_local;
pub mod buddy;
pub mod metrics;
pub mod global;
pub mod simple_cache;
pub mod abi;
pub mod hess;
pub mod exporter;
pub mod ownership;
