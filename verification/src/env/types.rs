//! The vectorized env-layer request and result types: one seed, action and
//! observation per sub-environment.

use vstd::prelude::*;

use crate::env::wire::native_index;
use crate::env::wire::EnvRuntimeError;
use crate::spaces::{copy_options, MetaMap, SpaceValue};
use crate::text::{decimal_int, int_text};

verus! {

/// A vectorized reset request: one seed per sub-environment.
#[derive(Debug, PartialEq)]
pub struct ResetRequest {
    /// One seed per sub-environment (empty leaves seeding to the env).
    pub seeds: Vec<i64>,
    /// Optional reset options forwarded to the environment.
    pub options: Option<MetaMap>,
    /// Per-call deadline in milliseconds; `0` means no deadline.
    pub timeout_ms: i64,
    /// The lanes a partial reset restarts; empty resets every lane.
    pub env_indices: Vec<i32>,
}

/// A vectorized step request: one action per sub-environment.
#[derive(Debug, PartialEq)]
pub struct StepRequest {
    /// One action per sub-environment, in env-index order.
    pub actions: Vec<SpaceValue>,
    /// Per-call deadline in milliseconds; `0` means no deadline.
    pub timeout_ms: i64,
}

/// The result of a vectorized [`ResetRequest`].
#[derive(Debug, PartialEq)]
pub struct ResetResult {
    /// One initial observation per sub-environment.
    pub observations: Vec<SpaceValue>,
    /// Optional batched `info` map from the environment.
    pub info: Option<MetaMap>,
    /// The episode id assigned to each sub-environment.
    pub episode_ids: Vec<String>,
}

/// The result of a vectorized [`StepRequest`] (rewards as `f64` bit
/// patterns).
#[derive(Debug, PartialEq)]
pub struct StepResult {
    /// One observation per sub-environment.
    pub observations: Vec<SpaceValue>,
    /// One reward per sub-environment, as `f64` bit patterns.
    pub rewards: Vec<u64>,
    /// One terminated flag per sub-environment.
    pub terminated: Vec<bool>,
    /// One truncated flag per sub-environment.
    pub truncated: Vec<bool>,
    /// Optional batched `info` map from the environment.
    pub info: Option<MetaMap>,
    /// Summaries of the episodes this step completed.
    pub completed_episodes: Vec<EpisodeMetadata>,
    /// The current episode id of each sub-environment.
    pub episode_ids: Vec<String>,
}

impl Default for ResetRequest {
    fn default() -> (request: Self)
        ensures
            request.seeds@.len() == 0,
            request.options is None,
            request.timeout_ms == 0,
            request.env_indices@.len() == 0,
    {
        ResetRequest { seeds: Vec::new(), options: None, timeout_ms: 0, env_indices: Vec::new() }
    }
}

impl Default for StepRequest {
    fn default() -> (request: Self)
        ensures
            request.actions@.len() == 0,
            request.timeout_ms == 0,
    {
        StepRequest { actions: Vec::new(), timeout_ms: 0 }
    }
}

impl Default for ResetResult {
    fn default() -> (result: Self)
        ensures
            result.observations@.len() == 0,
            result.info is None,
            result.episode_ids@.len() == 0,
    {
        ResetResult { observations: Vec::new(), info: None, episode_ids: Vec::new() }
    }
}

/// Summary of one finished episode, reported on step completion and on
/// close (the cumulative reward as its `f64` bit pattern).
#[derive(Debug, PartialEq)]
pub struct EpisodeMetadata {
    /// Unique identifier for the episode.
    pub episode_id: String,
    /// Seed the episode was reset with.
    pub seed: i64,
    /// Index of the sub-environment that produced the episode.
    pub env_index: i32,
    /// Number of steps the episode ran.
    pub step_count: i64,
    /// Sum of rewards over the episode, as an `f64` bit pattern.
    pub cumulative_reward: u64,
    /// Whether the episode ended in a terminal state.
    pub terminated: bool,
    /// Whether the episode was truncated (e.g. by a time limit).
    pub truncated: bool,
    /// Episode start time, nanoseconds since the Unix epoch.
    pub start_timestamp_ns: i64,
    /// Episode end time, nanoseconds since the Unix epoch.
    pub end_timestamp_ns: i64,
    /// Wall-clock duration in milliseconds.
    pub duration_ms: i64,
    /// Final `info` map emitted by the environment, if any.
    pub final_info: Option<MetaMap>,
}

/// The result of closing an environment or env session.
#[derive(Debug, PartialEq)]
pub struct CloseResult {
    /// Metadata for episodes that were still in flight at close time.
    pub final_episodes: Vec<EpisodeMetadata>,
}

/// An episode summary as the wire carries it: an unsigned lane index and no
/// duration (the receiver derives it from the timestamps).
#[derive(Debug, PartialEq)]
pub struct WireEpisodeMetadata {
    /// Unique identifier for the episode.
    pub episode_id: String,
    /// Seed the episode was reset with.
    pub seed: i64,
    /// Index of the sub-environment that produced the episode.
    pub env_index: u32,
    /// Number of steps the episode ran.
    pub step_count: i64,
    /// Sum of rewards over the episode, as an `f64` bit pattern.
    pub cumulative_reward: u64,
    /// Whether the episode ended in a terminal state.
    pub terminated: bool,
    /// Whether the episode was truncated.
    pub truncated: bool,
    /// Episode start time, nanoseconds since the Unix epoch.
    pub start_timestamp_ns: i64,
    /// Episode end time, nanoseconds since the Unix epoch.
    pub end_timestamp_ns: i64,
    /// Final `info` map emitted by the environment, if any.
    pub final_info: Option<MetaMap>,
}

/// The duration of an episode in whole milliseconds: the span between its
/// timestamps, none when the end precedes the start.
pub open spec fn episode_duration_ms(start_ns: i64, end_ns: i64) -> i64 {
    if end_ns - start_ns <= 0 {
        0
    } else {
        ((end_ns - start_ns) / 1_000_000) as i64
    }
}

/// Whether `wire` carries `native`'s summary: every field as it is, the lane
/// index clamped at zero from below.
pub open spec fn carries_episode(native: EpisodeMetadata, wire: WireEpisodeMetadata) -> bool {
    &&& wire.episode_id@ == native.episode_id@
    &&& wire.seed == native.seed
    &&& wire.env_index == (if native.env_index < 0 {
        0
    } else {
        native.env_index as u32
    })
    &&& wire.step_count == native.step_count
    &&& wire.cumulative_reward == native.cumulative_reward
    &&& wire.terminated == native.terminated
    &&& wire.truncated == native.truncated
    &&& wire.start_timestamp_ns == native.start_timestamp_ns
    &&& wire.end_timestamp_ns == native.end_timestamp_ns
    &&& (wire.final_info is Some <==> native.final_info is Some)
    &&& (wire.final_info is Some ==> wire.final_info->Some_0.deep_entries() == native.final_info->Some_0.deep_entries())
}

/// The wire form of an episode summary (see [`carries_episode`]).
pub fn public_episode_metadata_to_proto(value: &EpisodeMetadata) -> (wire: WireEpisodeMetadata)
    ensures
        carries_episode(*value, wire),
{
    WireEpisodeMetadata {
        episode_id: value.episode_id.clone(),
        seed: value.seed,
        env_index: if value.env_index < 0 {
            0
        } else {
            value.env_index as u32
        },
        step_count: value.step_count,
        cumulative_reward: value.cumulative_reward,
        terminated: value.terminated,
        truncated: value.truncated,
        start_timestamp_ns: value.start_timestamp_ns,
        end_timestamp_ns: value.end_timestamp_ns,
        final_info: copy_options(&value.final_info),
    }
}

/// Whether `native` is the native form of wire summary `wire`: every field
/// as it is, the lane index clamped to `i32::MAX` (see [`native_index`]) and
/// the duration derived from the timestamps (see [`episode_duration_ms`]).
pub open spec fn recovers_episode(wire: WireEpisodeMetadata, native: EpisodeMetadata) -> bool {
    &&& native.episode_id@ == wire.episode_id@
    &&& native.seed == wire.seed
    &&& native.env_index == native_index(wire.env_index)
    &&& native.step_count == wire.step_count
    &&& native.cumulative_reward == wire.cumulative_reward
    &&& native.terminated == wire.terminated
    &&& native.truncated == wire.truncated
    &&& native.start_timestamp_ns == wire.start_timestamp_ns
    &&& native.end_timestamp_ns == wire.end_timestamp_ns
    &&& native.duration_ms == episode_duration_ms(wire.start_timestamp_ns, wire.end_timestamp_ns)
    &&& native.final_info == wire.final_info
}

/// The native form of a wire episode summary (see [`recovers_episode`]).
pub fn proto_episode_metadata_to_public(value: WireEpisodeMetadata) -> (native: EpisodeMetadata)
    requires
        i64::MIN <= value.end_timestamp_ns - value.start_timestamp_ns <= i64::MAX,
    ensures
        recovers_episode(value, native),
{
    let span = value.end_timestamp_ns - value.start_timestamp_ns;
    let duration_ms = if span <= 0 {
        0
    } else {
        span / 1_000_000
    };
    let env_index: i32 = if value.env_index <= 2147483647u32 {
        value.env_index as i32
    } else {
        2147483647i32
    };
    EpisodeMetadata {
        episode_id: value.episode_id,
        seed: value.seed,
        env_index,
        step_count: value.step_count,
        cumulative_reward: value.cumulative_reward,
        terminated: value.terminated,
        truncated: value.truncated,
        start_timestamp_ns: value.start_timestamp_ns,
        end_timestamp_ns: value.end_timestamp_ns,
        duration_ms,
        final_info: value.final_info,
    }
}

/// A summary that crosses the wire and comes back keeps its id, seed, step
/// count, reward, flags, timestamps and final info; its lane index comes back
/// as it was (a negative one as lane 0); its duration becomes the span of its
/// timestamps in whole milliseconds.
pub proof fn episode_summary_survives_the_wire(
    native: EpisodeMetadata,
    wire: WireEpisodeMetadata,
    back: EpisodeMetadata,
)
    requires
        carries_episode(native, wire),
        recovers_episode(wire, back),
    ensures
        back.episode_id@ == native.episode_id@,
        back.seed == native.seed,
        back.env_index == (if native.env_index < 0 {
            0
        } else {
            native.env_index
        }),
        back.step_count == native.step_count,
        back.cumulative_reward == native.cumulative_reward,
        back.terminated == native.terminated,
        back.truncated == native.truncated,
        back.start_timestamp_ns == native.start_timestamp_ns,
        back.end_timestamp_ns == native.end_timestamp_ns,
        back.duration_ms == episode_duration_ms(native.start_timestamp_ns, native.end_timestamp_ns),
        back.final_info is Some <==> native.final_info is Some,
        back.final_info is Some ==> back.final_info->Some_0.deep_entries() == native.final_info->Some_0.deep_entries(),
{
}

/// The wire deadline of a native one: a negative deadline is none.
pub open spec fn wire_timeout(timeout_ms: i64) -> u64 {
    if timeout_ms < 0 {
        0
    } else {
        timeout_ms as u64
    }
}

/// The wire deadline of a native one (see [`wire_timeout`]).
pub fn to_wire_timeout(timeout_ms: i64) -> (wire: u64)
    ensures
        wire == wire_timeout(timeout_ms),
{
    if timeout_ms < 0 {
        0
    } else {
        timeout_ms as u64
    }
}

/// The native deadline of a wire one: past `i64::MAX` it saturates.
pub open spec fn native_timeout(timeout_ms: u64) -> i64 {
    if timeout_ms <= i64::MAX {
        timeout_ms as i64
    } else {
        i64::MAX
    }
}

/// The native deadline of a wire one (see [`native_timeout`]).
pub fn from_wire_timeout(timeout_ms: u64) -> (native: i64)
    ensures
        native == native_timeout(timeout_ms),
{
    if timeout_ms <= 9223372036854775807u64 {
        timeout_ms as i64
    } else {
        9223372036854775807i64
    }
}

/// A deadline crosses the wire and back unchanged, except that a negative
/// native deadline comes back as none (`0`) and a wire deadline past
/// `i64::MAX` saturates there.
pub proof fn deadlines_survive_the_wire(native: i64, wire: u64)
    ensures
        native_timeout(wire_timeout(native)) == (if native < 0 {
            0
        } else {
            native
        }),
        wire <= i64::MAX ==> wire_timeout(native_timeout(wire)) == wire,
{
}

/// `[a, b, ...]`, the lane offsets in decimal.
pub open spec fn lanes_text(lanes: Seq<i32>) -> Seq<char>
    decreases lanes.len(),
{
    if lanes.len() == 0 {
        Seq::empty()
    } else if lanes.len() == 1 {
        decimal_int(lanes[0] as int)
    } else {
        lanes_text(lanes.drop_last()) + ", "@ + decimal_int(lanes.last() as int)
    }
}

/// The message of a partial reset an environment cannot perform.
pub open spec fn unsupported_subset_text(lanes: Seq<i32>) -> Seq<char> {
    "partial reset of sub-envs ["@ + lanes_text(lanes)
        + "] is not supported by this environment. Per-lane reset is only available for an env that overrides `VectorEnv::reset_subset`. Use NEXT_STEP autoreset (the env resets done lanes itself), run with num_envs == 1, or ensure all lanes terminate on the same step so the whole vector resets together."@
}

/// What a vectorized environment that cannot reset single lanes does with a
/// partial reset: a reset naming no lanes is an ordinary whole-vector reset
/// (`Ok`), one naming lanes is refused.
pub fn check_reset_subset(env_indices: &Vec<i32>) -> (checked: Result<(), EnvRuntimeError>)
    ensures
        env_indices@.len() == 0 ==> checked is Ok,
        env_indices@.len() > 0 ==> (checked matches Err(EnvRuntimeError::Runtime(message)) && message@
            == unsupported_subset_text(env_indices@)),
{
    if env_indices.len() == 0 {
        return Ok(());
    }
    let mut listed = String::new();
    let mut i: usize = 0;
    proof {
        assert(env_indices@.take(0) =~= Seq::<i32>::empty());
    }
    while i < env_indices.len()
        invariant
            i <= env_indices@.len(),
            listed@ == lanes_text(env_indices@.take(i as int)),
        decreases env_indices@.len() - i,
    {
        if i > 0 {
            listed.append(", ");
        }
        listed.append(int_text(env_indices[i] as i64).as_str());
        proof {
            reveal_strlit(", ");
            let next = env_indices@.take(i + 1);
            assert(next.drop_last() =~= env_indices@.take(i as int));
            assert(next.last() == env_indices@[i as int]);
            assert(listed@ =~= lanes_text(next));
        }
        i = i + 1;
    }
    proof {
        assert(env_indices@.take(i as int) =~= env_indices@);
    }
    let mut message = String::from_str("partial reset of sub-envs [");
    message.append(listed.as_str());
    message.append(
        "] is not supported by this environment. Per-lane reset is only available for an env that overrides `VectorEnv::reset_subset`. Use NEXT_STEP autoreset (the env resets done lanes itself), run with num_envs == 1, or ensure all lanes terminate on the same step so the whole vector resets together.",
    );
    proof {
        reveal_strlit("partial reset of sub-envs [");
        reveal_strlit(
            "] is not supported by this environment. Per-lane reset is only available for an env that overrides `VectorEnv::reset_subset`. Use NEXT_STEP autoreset (the env resets done lanes itself), run with num_envs == 1, or ensure all lanes terminate on the same step so the whole vector resets together.",
        );
    }
    Err(EnvRuntimeError::Runtime(message))
}

} // verus!
