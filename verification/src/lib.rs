//! Verified core of the RLMesh model-environment evaluation SDK.
//!
//! The library holds the decision logic of the SDK as plain-value functions
//! with contracts: address parsing, the error taxonomy, serve-option
//! normalization, the env wire checks and per-lane batching, the episode-id
//! authority of the direct env client, serving-side value conformance, the
//! model engine's corner selection and chunk handling, the served model's
//! per-route request sequencing and resolved routes, the episode lifecycle
//! bookkeeping, and the session telemetry mapping.

mod text;
pub mod transport;
pub mod error;
pub mod address;
pub mod env;
pub mod lifecycle;
pub mod model;
pub mod serve_options;
pub mod single;
pub mod spaces;

pub use address::{BindAddress, ConnectAddress};
pub use error::{EnvironmentError, Error, ErrorCode, ModelError};
pub use serve_options::ServeOptions;
pub use single::SingleEnvAdapter;
pub use env::types::{CloseResult, EpisodeMetadata, ResetRequest, ResetResult, StepRequest};
pub use env::wire::EnvRuntimeError;
pub use spaces::{EnvContract, SpaceSpec, SpaceValue};
pub use model::engine::PredictFrames;
pub use model::lifecycle::ModelEpisodeEnd;
pub use model::telemetry::telemetry_summary_to_proto;
pub use model::types::ModelRouteContext;
pub use model::worker::{ModelWorker, RunLocalOptions, ServeModelOptions};
