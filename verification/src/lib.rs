//! A verified model of an OpenPGP-style identity store and web-of-trust
//! engine: certificates carrying user identities and bounded trust
//! certifications, a concurrency-safe certificate store with monotonic
//! merge, a secret-key vault with exclusive role assignment, a signer that
//! issues certifications, and a trust network that quantifies trust paths
//! and exports visualization graphs.

use vstd::prelude::*;

pub mod api;
pub mod cert;
pub mod codec;
pub mod handle;
pub mod import;
pub mod proto;
pub mod sharedstore;
pub mod store;
pub mod sign;
pub mod vault;
pub mod visual;
pub mod wot;

verus! {

/// Error taxonomy of the library.
///
/// `NotFound` covers absent fingerprints, roles and subkeys;
/// `FingerprintRequired` is raised when an operation needs a full
/// fingerprint but only a short key id was supplied; `ParseError` covers
/// malformed certificate bytes; `Generic` carries assertion-style internal
/// failures.
#[derive(Debug, Clone, Copy, PartialEq, Eq)]
pub enum InternalErr {
    NotFound(&'static str),
    FingerprintRequired,
    ParseError,
    Generic(&'static str),
}

} // verus!
