//! Exclusive, time-bounded access to interchangeable backend resources, and
//! a tagged envelope protocol that lets one connection carry many concurrent
//! calls whose replies may come back in any order.

pub mod tagged;
pub mod allocator;
pub mod resource_filter;
pub mod slab_store;
pub mod session;
pub mod allocator_client;
pub mod mux_server;
pub mod data_discarder;
pub mod printer;
