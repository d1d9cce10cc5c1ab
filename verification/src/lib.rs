//! A shader-reflection-driven pipeline and resource-binding core for an
//! explicit graphics API.
//!
//! The library reflects a WGSL shader's resource bindings, synthesizes one
//! bind-group layout per binding group in deterministic order, tracks named
//! buffers with alignment-aware offset arithmetic, and caches bind groups
//! per (pipeline, group) pair with an at-most-one-creation guarantee.
//! GPU objects themselves are opaque to this crate: an embedding maps the
//! records kept here onto live device objects.

pub mod binding;
pub mod layout;
pub mod reflect;
pub mod pipeline;
pub mod registry;
pub mod server;
