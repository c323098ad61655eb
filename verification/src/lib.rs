//! Chain-anchored access-control core.
//!
//! An on-chain state machine that issues short-lived, cryptographically bound
//! access sessions to agents who prove possession of attributes against a
//! Merkle-committed identity root, together with the policy-evaluation and
//! payment-to-entitlement layers that the session issuer consults.
//!
//! The chain host is out of scope: it supplies the caller identity, the
//! current block height and timestamp (see [`host::Env`]), and the
//! Blake2-256 hash primitive. Everything else — the entitlement ladder, the
//! session lifecycle, the scope registry, the Merkle-proof verifier, the
//! payment state machine and the policy rules — lives here, with contracts.

pub mod host;
pub mod bytes;
pub mod alist;
pub mod hashing;
pub mod merkle;
pub mod entitlement;
pub mod access_registry;
pub mod payment;
pub mod policy;
pub mod bridge;
