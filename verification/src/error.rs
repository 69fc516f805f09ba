//! Errors reported by construction, signing, embedding and reading.

use vstd::prelude::*;
use crate::digest::ContentDigest;

verus! {

/// Everything a library operation can fail with. Validation findings on the
/// read path are not errors: they are reported as statuses instead.
#[derive(Debug)]
pub enum Error {
    /// A required field of an assertion is missing or empty.
    InvalidAssertion { field: String },
    /// An assertion with this label is already present in the manifest.
    DuplicateLabel { label: String },
    /// The manifest already has a parent ingredient.
    DuplicateParent,
    /// The manifest is already signed and can no longer change.
    ImmutableManifest,
    /// The key material handed to the signer is unusable.
    Signing,
    /// The algorithm identifier names no supported signature algorithm.
    UnsupportedAlgorithm,
    /// The manifest's stored content digest does not match the asset bytes.
    DigestMismatch { expected: Option<ContentDigest>, actual: ContentDigest },
    /// The asset carries no embedded manifest store.
    NoManifestFound,
    /// The store holds no manifest at all.
    NoActiveManifest,
    /// Following parent links revisited an already-seen asset version.
    CyclicChain,
}

} // verus!
