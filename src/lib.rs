//! Catalog of the objects stored in a bucket: folding an object listing and
//! the objects' tag sets into a filtered view, the rules that make a catalog
//! fail, upload forms, settings and the cross-origin policy.
pub mod catalog;
pub mod config;
pub mod cors;
pub mod filter;
pub mod lemmas;
pub mod signer;
pub mod upload;
