//! A registry that binds an owner identity to named voice-fingerprint
//! records, and resolves unknown voice samples to a registered owner by
//! nearest-match similarity search under a fixed acceptance threshold.

/// Opaque caller/owner identities and their textual encoding.
pub mod identity;
/// The similarity matcher: threshold and tie-break policy over
/// order-preserving similarity keys.
pub mod matcher;
/// The record store, registration with its uniqueness invariants, and the
/// read-only queries.
pub mod registry;
