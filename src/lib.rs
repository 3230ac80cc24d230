//! Record-management core for a festival's plan catalog: schedule values and
//! their display transform, JSON merge-patches, the key index over the record
//! store, batched reads, and bearer-token verification against a signing-key set.

pub mod base;
pub mod bulk;
pub mod details;
pub mod discord;
pub mod json;
pub mod jwks;
pub mod jwt_verifier;
pub mod keys;
pub mod plan;
pub mod plan_type;
pub mod products;
pub mod query;
pub mod schedule;
pub mod util;
