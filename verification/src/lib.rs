//! Tamper-evident provenance manifests for media assets.
//!
//! A `Manifest` collects typed assertions about one version of an asset,
//! is signed once, and is embedded into the asset's bytes. Later versions
//! link back to earlier ones through ingredient snapshots, forming a chain
//! of custody that a reader reconstructs and validates.

use vstd::prelude::*;

pub mod action;
pub mod assertion;
pub mod clock;
pub mod codec;
pub mod digest;
pub mod error;
pub mod manifest;
pub mod media;
pub mod sign;
pub mod store;
pub mod text;

verus! {

} // verus!
