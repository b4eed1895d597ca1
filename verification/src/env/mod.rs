//! Environment-side logic: the wire checks and per-lane batching of the env
//! server, the vectorized request types, and the direct client's episode-id
//! authority.

pub mod client;
pub mod conformance;
pub mod episodes;
pub mod lanes;
pub mod types;
pub mod wire;
