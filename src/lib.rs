//! One-time binding of an authenticated principal to an Ethereum address,
//! proven by a signature over a message that names both, and weighted by a
//! score fetched from an outside oracle.
//!
//! The issuance protocol is split at its one suspension point, the score
//! fetch: `issuer::verify_claim` runs every check that comes before it and
//! touches no state; `issuer::complete_issuance` re-checks both keys and
//! commits in one step once the score has come back, so two calls racing on
//! the same principal or address can never both commit.
pub mod types;
pub mod store;
pub mod hash;
pub mod codec;
pub mod message;
pub mod recover;
pub mod issuer;
