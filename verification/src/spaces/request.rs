//! The single-environment request family: one seed, one action, one
//! observation per call.

use vstd::prelude::*;

use super::{MetaMap, SpaceValue};

verus! {

/// A single-environment reset request.
#[derive(Debug, PartialEq)]
pub struct ResetRequest {
    /// The seed to reset with, if any.
    pub seed: Option<i64>,
    /// Optional reset options forwarded to the environment.
    pub options: Option<MetaMap>,
    /// Per-call deadline in milliseconds; `0` means no deadline.
    pub timeout_ms: i64,
}

/// The result of a single-environment reset.
#[derive(Debug, PartialEq)]
pub struct ResetResult {
    /// The initial observation.
    pub observation: Option<SpaceValue>,
    /// Optional `info` map from the environment.
    pub info: Option<MetaMap>,
    /// The episode id the reset started, if the environment reports one.
    pub episode_id: Option<String>,
}

/// A single-environment step request.
#[derive(Debug, PartialEq)]
pub struct StepRequest {
    /// The action to apply.
    pub action: Option<SpaceValue>,
    /// Per-call deadline in milliseconds; `0` means no deadline.
    pub timeout_ms: i64,
}

/// The result of a single-environment step (the reward as its `f64` bit
/// pattern).
#[derive(Debug, PartialEq)]
pub struct StepResult {
    /// The observation after the step.
    pub observation: Option<SpaceValue>,
    /// The reward, as an `f64` bit pattern.
    pub reward: u64,
    /// Whether the episode ended in a terminal state.
    pub terminated: bool,
    /// Whether the episode was truncated.
    pub truncated: bool,
    /// Optional `info` map from the environment.
    pub info: Option<MetaMap>,
}

impl Default for ResetRequest {
    fn default() -> (request: Self)
        ensures
            request.seed is None,
            request.options is None,
            request.timeout_ms == 0,
    {
        ResetRequest { seed: None, options: None, timeout_ms: 0 }
    }
}

impl Default for StepRequest {
    fn default() -> (request: Self)
        ensures
            request.action is None,
            request.timeout_ms == 0,
    {
        StepRequest { action: None, timeout_ms: 0 }
    }
}

} // verus!
