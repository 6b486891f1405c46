//! A container-image registry core: resumable, digest-verified blob uploads,
//! content-addressed blob and manifest storage, and a replicated catalog kept
//! consistent across peers by an add-wins observed-remove set.
pub mod blob;
pub mod catalog;
pub mod digest;
pub mod error;
pub mod manifest;
pub mod order;
pub mod registry;
pub mod routes;
pub mod sync;
pub mod upload;
