//! Model-side logic: route context, the worker options, the engine's corner
//! selection and chunk handling, the served model's request sequencing, the
//! episode lifecycle, and the direct model client's replay state.

pub mod engine;
pub mod lifecycle;
pub mod local;
pub mod remote;
pub mod route_configs;
pub mod route_tails;
pub mod server;
pub mod summary;
pub mod telemetry;
pub mod types;
pub mod wire;
pub mod worker;
