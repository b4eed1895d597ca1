//! Adapting a single (scalar) environment to the vectorized env layer as a
//! vector of one.

use vstd::prelude::*;

use crate::env::types::{EpisodeMetadata, ResetRequest, ResetResult, StepRequest, StepResult};
use crate::spaces::request;
use crate::spaces::SpaceValue;

verus! {

/// Adapts a single environment into a vectorized one with one lane: it takes
/// the first seed and action on the way in and wraps the single observation
/// back into one-element batches on the way out.
pub struct SingleEnvAdapter<E> {
    inner: E,
}

impl<E> SingleEnvAdapter<E> {
    /// The wrapped environment.
    pub closed spec fn wrapped(&self) -> E {
        self.inner
    }

    /// Wrap a single environment.
    pub fn new(inner: E) -> (adapter: Self)
        ensures
            adapter.wrapped() == inner,
    {
        SingleEnvAdapter { inner }
    }

    /// Consume the adapter and return the wrapped environment.
    pub fn into_inner(self) -> (inner: E)
        ensures
            inner == self.wrapped(),
    {
        self.inner
    }

    /// Borrow the wrapped environment.
    pub fn inner(&self) -> (inner: &E)
        ensures
            *inner == self.wrapped(),
    {
        &self.inner
    }

    /// Mutably borrow the wrapped environment.
    pub fn inner_mut(&mut self) -> (inner: &mut E)
        ensures
            *inner == old(self).wrapped(),
            final(self).wrapped() == *final(inner),
    {
        &mut self.inner
    }

    /// The lane count of the adapted environment: always one.
    pub fn num_envs(&self) -> (count: usize)
        ensures
            count == 1,
    {
        1
    }
}

/// The first element of `s`, if any.
pub open spec fn first_of<T>(s: Seq<T>) -> Option<T> {
    if s.len() > 0 {
        Some(s[0])
    } else {
        None
    }
}

/// `value` as a batch of at most one.
pub open spec fn batch_of<T>(value: Option<T>) -> Seq<T> {
    match value {
        Some(v) => seq![v],
        None => Seq::empty(),
    }
}

/// Whether `single` is the single-environment reset of vectorized `req`: the
/// first seed, the options and the deadline.
pub open spec fn unbatches_reset_request(req: ResetRequest, single: request::ResetRequest) -> bool {
    single.seed == first_of(req.seeds@) && single.options == req.options && single.timeout_ms == req.timeout_ms
}

/// Whether `batched` is the vectorized reset of single-environment `req`: its
/// seed (if any) as the only seed, every lane, its options and deadline.
pub open spec fn batches_reset_request(req: request::ResetRequest, batched: ResetRequest) -> bool {
    batched.seeds@ == batch_of(req.seed) && batched.options == req.options && batched.timeout_ms == req.timeout_ms
        && batched.env_indices@.len() == 0
}

/// Whether `single` is the single-environment step of vectorized `req`: the
/// first action and the deadline.
pub open spec fn unbatches_step_request(req: StepRequest, single: request::StepRequest) -> bool {
    single.action == first_of(req.actions@) && single.timeout_ms == req.timeout_ms
}

/// Whether `batched` is the vectorized step of single-environment `req`: its
/// action (if any) as the only action, and its deadline.
pub open spec fn batches_step_request(req: request::StepRequest, batched: StepRequest) -> bool {
    batched.actions@ == batch_of(req.action) && batched.timeout_ms == req.timeout_ms
}

/// Whether `batched` is the vectorized result of single-environment reset
/// `result`: the observation and episode id as batches of at most one.
pub open spec fn batches_reset_result(result: request::ResetResult, batched: ResetResult) -> bool {
    batched.observations@ == batch_of(result.observation) && batched.info == result.info && batched.episode_ids@
        == batch_of(result.episode_id)
}

/// Whether `single` is the single-environment result of vectorized reset
/// `result`: the first observation and episode id, and the info.
pub open spec fn unbatches_reset_result(result: ResetResult, single: request::ResetResult) -> bool {
    single.observation == first_of(result.observations@) && single.info == result.info && single.episode_id
        == first_of(result.episode_ids@)
}

/// Whether `batched` is the vectorized result of single-environment step
/// `result`: one-lane batches of the observation (if any), reward and flags,
/// the info, and no completed episodes or episode ids.
pub open spec fn batches_step_result(result: request::StepResult, batched: StepResult) -> bool {
    &&& batched.observations@ == batch_of(result.observation)
    &&& batched.rewards@ == seq![result.reward]
    &&& batched.terminated@ == seq![result.terminated]
    &&& batched.truncated@ == seq![result.truncated]
    &&& batched.info == result.info
    &&& batched.completed_episodes@.len() == 0
    &&& batched.episode_ids@.len() == 0
}

/// Whether `single` is the single-environment result of vectorized step
/// `result`: the first observation, the first reward and flags (zero and
/// false when the batch has none), and the info.
pub open spec fn unbatches_step_result(result: StepResult, single: request::StepResult) -> bool {
    &&& single.observation == first_of(result.observations@)
    &&& single.reward == (if result.rewards@.len() > 0 {
        result.rewards@[0]
    } else {
        0
    })
    &&& single.terminated == (result.terminated@.len() > 0 && result.terminated@[0])
    &&& single.truncated == (result.truncated@.len() > 0 && result.truncated@[0])
    &&& single.info == result.info
}

/// A single environment served as a vector of one and read back through the
/// scalar client loses nothing: the request it receives is the request the
/// client sent, and the result the client reads is the result it returned.
pub proof fn a_vector_of_one_is_transparent(
    reset: request::ResetRequest,
    reset_batched: ResetRequest,
    reset_received: request::ResetRequest,
    step: request::StepRequest,
    step_batched: StepRequest,
    step_received: request::StepRequest,
    reset_result: request::ResetResult,
    reset_result_batched: ResetResult,
    reset_result_read: request::ResetResult,
    step_result: request::StepResult,
    step_result_batched: StepResult,
    step_result_read: request::StepResult,
)
    requires
        batches_reset_request(reset, reset_batched),
        unbatches_reset_request(reset_batched, reset_received),
        batches_step_request(step, step_batched),
        unbatches_step_request(step_batched, step_received),
        batches_reset_result(reset_result, reset_result_batched),
        unbatches_reset_result(reset_result_batched, reset_result_read),
        batches_step_result(step_result, step_result_batched),
        unbatches_step_result(step_result_batched, step_result_read),
    ensures
        reset_received == reset,
        step_received == step,
        reset_result_read == reset_result,
        step_result_read == step_result,
{
}

/// The single-environment reset of a vectorized one: the first seed, the
/// options and the deadline.
pub fn single_reset_request(req: ResetRequest) -> (single: request::ResetRequest)
    ensures
        unbatches_reset_request(req, single),
{
    let seed = if req.seeds.len() > 0 {
        Some(req.seeds[0])
    } else {
        None
    };
    request::ResetRequest { seed, options: req.options, timeout_ms: req.timeout_ms }
}

/// The single-environment step of a vectorized one: the first action and the
/// deadline.
pub fn single_step_request(req: StepRequest) -> (single: request::StepRequest)
    ensures
        unbatches_step_request(req, single),
{
    let mut actions = req.actions;
    let action = if actions.len() > 0 {
        Some(actions.remove(0))
    } else {
        None
    };
    request::StepRequest { action, timeout_ms: req.timeout_ms }
}

/// The vectorized result of a single-environment reset: the observation and
/// the episode id as batches of at most one.
pub fn vector_reset_result(result: request::ResetResult) -> (batched: ResetResult)
    ensures
        batches_reset_result(result, batched),
{
    let mut observations: Vec<SpaceValue> = Vec::new();
    match result.observation {
        Some(observation) => observations.push(observation),
        None => {},
    }
    let mut episode_ids: Vec<String> = Vec::new();
    match result.episode_id {
        Some(id) => episode_ids.push(id),
        None => {},
    }
    ResetResult { observations, info: result.info, episode_ids }
}

/// The vectorized result of a single-environment step: one-lane batches of
/// the observation (if any), reward and flags, the info as it is, and no
/// completed episodes or episode ids.
pub fn vector_step_result(result: request::StepResult) -> (batched: StepResult)
    ensures
        batches_step_result(result, batched),
{
    let mut observations: Vec<SpaceValue> = Vec::new();
    match result.observation {
        Some(observation) => observations.push(observation),
        None => {},
    }
    let mut rewards: Vec<u64> = Vec::new();
    rewards.push(result.reward);
    let mut terminated: Vec<bool> = Vec::new();
    terminated.push(result.terminated);
    let mut truncated: Vec<bool> = Vec::new();
    truncated.push(result.truncated);
    let completed: Vec<EpisodeMetadata> = Vec::new();
    let ids: Vec<String> = Vec::new();
    proof {
        assert(rewards@ =~= seq![result.reward]);
        assert(terminated@ =~= seq![result.terminated]);
        assert(truncated@ =~= seq![result.truncated]);
    }
    StepResult {
        observations,
        rewards,
        terminated,
        truncated,
        info: result.info,
        completed_episodes: completed,
        episode_ids: ids,
    }
}

/// The vectorized reset a scalar client sends for a single-environment one:
/// its seed (if any) as the only seed, every lane, its options and deadline.
pub fn vector_reset_request(req: request::ResetRequest) -> (batched: ResetRequest)
    ensures
        batches_reset_request(req, batched),
{
    let mut seeds: Vec<i64> = Vec::new();
    match req.seed {
        Some(seed) => seeds.push(seed),
        None => {},
    }
    proof {
        if req.seed is Some {
            assert(seeds@ =~= seq![req.seed->Some_0]);
        }
    }
    ResetRequest { seeds, options: req.options, timeout_ms: req.timeout_ms, env_indices: Vec::new() }
}

/// The single-environment result of a vectorized reset: the first
/// observation and episode id (if any), and the info as it is.
pub fn single_reset_result(result: ResetResult) -> (single: request::ResetResult)
    ensures
        unbatches_reset_result(result, single),
{
    let mut observations = result.observations;
    let observation = if observations.len() > 0 {
        Some(observations.remove(0))
    } else {
        None
    };
    let mut ids = result.episode_ids;
    let episode_id = if ids.len() > 0 {
        Some(ids.remove(0))
    } else {
        None
    };
    request::ResetResult { observation, info: result.info, episode_id }
}

/// The vectorized step a scalar client sends for a single-environment one:
/// its action (if any) as the only action, and its deadline.
pub fn vector_step_request(req: request::StepRequest) -> (batched: StepRequest)
    ensures
        batches_step_request(req, batched),
{
    let mut actions: Vec<SpaceValue> = Vec::new();
    match req.action {
        Some(action) => actions.push(action),
        None => {},
    }
    StepRequest { actions, timeout_ms: req.timeout_ms }
}

/// The single-environment result of a vectorized step: the first
/// observation, and the first reward and flags (zero and false when the
/// batch has none), with the info as it is.
pub fn single_step_result(result: StepResult) -> (single: request::StepResult)
    ensures
        unbatches_step_result(result, single),
{
    let mut observations = result.observations;
    let observation = if observations.len() > 0 {
        Some(observations.remove(0))
    } else {
        None
    };
    let reward = if result.rewards.len() > 0 {
        result.rewards[0]
    } else {
        0
    };
    let terminated = result.terminated.len() > 0 && result.terminated[0];
    let truncated = result.truncated.len() > 0 && result.truncated[0];
    request::StepResult { observation, reward, terminated, truncated, info: result.info }
}

} // verus!
