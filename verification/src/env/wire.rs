//! The env wire layer's checks and per-lane batching: counting what an env
//! returned, the lanes a request covers, narrowing reset options per lane,
//! batching per-lane infos, and folding per-lane phase timings.

use vstd::prelude::*;

use crate::error::{EnvironmentError, Error, ErrorCode};
use crate::spaces::request::ResetRequest as LaneResetRequest;
use crate::spaces::{copy_map, copy_value, MetaMap, MetaValue, MetaView};
use crate::text::{decimal, number_text};

verus! {

/// The classification of an env failure on the wire.
#[derive(Debug, Clone, Copy, PartialEq, Eq)]
pub enum WireErrorCode {
    /// No specific code.
    Unspecified,
    /// The operation exceeded its deadline.
    Timeout,
    /// The request was invalid for the env (a bad action, lane or option).
    InvalidAction,
    /// The env is not ready.
    NotReady,
    /// The env is busy.
    Busy,
    /// An internal failure.
    Internal,
    /// The env crashed.
    Crashed,
    /// The operation was cancelled.
    Cancelled,
    /// The env is closed.
    Closed,
    /// The env does not support the request.
    Unsupported,
}

/// An env failure as the wire reports it.
#[derive(Debug, Clone, PartialEq, Eq)]
pub struct WireEnvError {
    /// The failure's classification.
    pub code: WireErrorCode,
    /// Human-readable description.
    pub message: String,
    /// Whether the request may be retried.
    pub is_recoverable: bool,
}

/// Whether a failure of `code` raised by the wire layer may be retried: an
/// invalid request may be retried with a valid one.
pub open spec fn code_is_recoverable(code: WireErrorCode) -> bool {
    code == WireErrorCode::InvalidAction
}

impl WireEnvError {
    /// A wire failure with `code` and `message`.
    pub fn new(code: WireErrorCode, message: String) -> (error: Self)
        ensures
            error.code == code,
            error.message == message,
            error.is_recoverable == code_is_recoverable(code),
    {
        let is_recoverable = match code {
            WireErrorCode::InvalidAction => true,
            _ => false,
        };
        WireEnvError { code, message, is_recoverable }
    }
}

/// The public code a wire code maps to; a code with no public counterpart
/// maps to `Internal`.
pub open spec fn spec_map_env_error_code(code: WireErrorCode) -> ErrorCode {
    match code {
        WireErrorCode::Unspecified => ErrorCode::Unspecified,
        WireErrorCode::Timeout => ErrorCode::Timeout,
        WireErrorCode::InvalidAction => ErrorCode::InvalidAction,
        WireErrorCode::NotReady => ErrorCode::NotReady,
        WireErrorCode::Busy => ErrorCode::Busy,
        WireErrorCode::Internal => ErrorCode::Internal,
        WireErrorCode::Crashed => ErrorCode::Crashed,
        WireErrorCode::Cancelled => ErrorCode::Cancelled,
        WireErrorCode::Closed => ErrorCode::Closed,
        WireErrorCode::Unsupported => ErrorCode::Internal,
    }
}

/// The public code a wire code maps to.
pub fn map_env_error_code(code: WireErrorCode) -> (mapped: ErrorCode)
    ensures
        mapped == spec_map_env_error_code(code),
{
    match code {
        WireErrorCode::Unspecified => ErrorCode::Unspecified,
        WireErrorCode::Timeout => ErrorCode::Timeout,
        WireErrorCode::InvalidAction => ErrorCode::InvalidAction,
        WireErrorCode::NotReady => ErrorCode::NotReady,
        WireErrorCode::Busy => ErrorCode::Busy,
        WireErrorCode::Internal => ErrorCode::Internal,
        WireErrorCode::Crashed => ErrorCode::Crashed,
        WireErrorCode::Cancelled => ErrorCode::Cancelled,
        WireErrorCode::Closed => ErrorCode::Closed,
        WireErrorCode::Unsupported => ErrorCode::Internal,
    }
}

/// A wire env error code keeps its name on the public side: each code with a
/// public counterpart becomes the public code of the same name, and the one
/// wire code with no counterpart (`Unsupported`) becomes `Internal`, so a
/// public code is reached only from the wire code of its own name (or, for
/// `Internal`, from the code that has none).
pub proof fn wire_codes_keep_their_public_name(code: WireErrorCode)
    ensures
        (spec_map_env_error_code(code) == ErrorCode::Unspecified) <==> (code == WireErrorCode::Unspecified),
        (spec_map_env_error_code(code) == ErrorCode::Timeout) <==> (code == WireErrorCode::Timeout),
        (spec_map_env_error_code(code) == ErrorCode::InvalidAction) <==> (code == WireErrorCode::InvalidAction),
        (spec_map_env_error_code(code) == ErrorCode::NotReady) <==> (code == WireErrorCode::NotReady),
        (spec_map_env_error_code(code) == ErrorCode::Busy) <==> (code == WireErrorCode::Busy),
        (spec_map_env_error_code(code) == ErrorCode::Crashed) <==> (code == WireErrorCode::Crashed),
        (spec_map_env_error_code(code) == ErrorCode::Cancelled) <==> (code == WireErrorCode::Cancelled),
        (spec_map_env_error_code(code) == ErrorCode::Closed) <==> (code == WireErrorCode::Closed),
        (spec_map_env_error_code(code) == ErrorCode::Internal) <==> (code == WireErrorCode::Internal || code
            == WireErrorCode::Unsupported),
{
}

/// The public environment error of a wire failure: code mapped, message and
/// recoverability kept.
pub fn environment_error_from(error: WireEnvError) -> (public: EnvironmentError)
    ensures
        public.code == spec_map_env_error_code(error.code),
        public.message == error.message,
        public.is_recoverable == error.is_recoverable,
{
    EnvironmentError {
        code: map_env_error_code(error.code),
        message: error.message,
        is_recoverable: error.is_recoverable,
    }
}

/// The message of a per-lane vector of the wrong length.
pub open spec fn count_text(returned: nat, label: Seq<char>, num_envs: nat) -> Seq<char> {
    "env returned "@ + decimal(returned) + " "@ + label + " for "@ + decimal(num_envs) + " envs"@
}

/// Every per-lane vector an env returns holds exactly one entry per lane.
pub fn validate_count<T>(values: &Vec<T>, num_envs: usize, label: &str) -> (checked: Result<(), WireEnvError>)
    ensures
        values@.len() == num_envs ==> checked is Ok,
        values@.len() != num_envs ==> (checked matches Err(error) && error.code == WireErrorCode::Internal
            && error.message@ == count_text(values@.len(), label@, num_envs as nat)),
{
    if values.len() == num_envs {
        return Ok(());
    }
    let mut message = String::from_str("env returned ");
    message.append(number_text(values.len() as u64).as_str());
    message.append(" ");
    message.append(label);
    message.append(" for ");
    message.append(number_text(num_envs as u64).as_str());
    message.append(" envs");
    Err(WireEnvError::new(WireErrorCode::Internal, message))
}

/// The message of a step carrying the wrong number of actions.
pub open spec fn action_count_text(num_envs: nat, actions: nat) -> Seq<char> {
    "expected "@ + decimal(num_envs) + " actions, got "@ + decimal(actions)
}

/// A step carries exactly one action per lane; anything else is an invalid
/// action.
pub fn validate_action_count<T>(actions: &Vec<T>, num_envs: usize) -> (checked: Result<(), WireEnvError>)
    ensures
        actions@.len() == num_envs ==> checked is Ok,
        actions@.len() != num_envs ==> (checked matches Err(error) && error.code == WireErrorCode::InvalidAction
            && error.message@ == action_count_text(num_envs as nat, actions@.len())),
{
    if actions.len() == num_envs {
        return Ok(());
    }
    let mut message = String::from_str("expected ");
    message.append(number_text(num_envs as u64).as_str());
    message.append(" actions, got ");
    message.append(number_text(actions.len() as u64).as_str());
    Err(WireEnvError::new(WireErrorCode::InvalidAction, message))
}

/// The lane a render request names: none for no index, the one index, and an
/// unsupported request for more than one.
pub fn render_env_index(env_indices: &Vec<u32>) -> (lane: Result<Option<usize>, WireEnvError>)
    ensures
        env_indices@.len() == 0 ==> lane == Ok::<Option<usize>, WireEnvError>(None),
        env_indices@.len() == 1 ==> lane == Ok::<Option<usize>, WireEnvError>(Some(env_indices@[0] as usize)),
        env_indices@.len() > 1 ==> (lane matches Err(error) && error.code == WireErrorCode::Unsupported
            && error.message@ == "render requests support at most one env_index"@),
{
    if env_indices.len() == 0 {
        Ok(None)
    } else if env_indices.len() == 1 {
        Ok(Some(env_indices[0] as usize))
    } else {
        let message = String::from_str("render requests support at most one env_index");
        proof {
            reveal_strlit("render requests support at most one env_index");
        }
        Err(WireEnvError::new(WireErrorCode::Unsupported, message))
    }
}

/// The native lane offset of a wire lane index: indices past `i32::MAX` clamp
/// to it, so a foreign index is refused downstream rather than wrapped.
pub open spec fn native_index(index: u32) -> i32 {
    if index <= i32::MAX {
        index as i32
    } else {
        i32::MAX
    }
}

/// Convert wire lane indices to native lane offsets (see [`native_index`]).
pub fn proto_env_indices_to_native(env_indices: Vec<u32>) -> (native: Vec<i32>)
    ensures
        native@.len() == env_indices@.len(),
        forall|i: int| 0 <= i < env_indices@.len() ==> #[trigger] native@[i] == native_index(env_indices@[i]),
{
    let mut native: Vec<i32> = Vec::new();
    let mut i: usize = 0;
    while i < env_indices.len()
        invariant
            i <= env_indices@.len(),
            native@.len() == i,
            forall|j: int| 0 <= j < i ==> #[trigger] native@[j] == native_index(env_indices@[j]),
        decreases env_indices@.len() - i,
    {
        let index = env_indices[i];
        let value: i32 = if index <= 2147483647u32 {
            index as i32
        } else {
            2147483647i32
        };
        native.push(value);
        i = i + 1;
    }
    native
}

/// The lanes a request covers: the ones it names, else every one of the
/// `num_envs` lanes.
pub fn lanes_for(num_envs: usize, env_indices: &Vec<u32>) -> (lanes: Vec<usize>)
    ensures
        env_indices@.len() == 0 ==> lanes@.len() == num_envs && forall|i: int|
            0 <= i < num_envs ==> #[trigger] lanes@[i] == i,
        env_indices@.len() > 0 ==> lanes@.len() == env_indices@.len() && forall|i: int|
            0 <= i < env_indices@.len() ==> #[trigger] lanes@[i] == env_indices@[i] as usize,
{
    let mut lanes: Vec<usize> = Vec::new();
    if env_indices.len() == 0 {
        let mut lane: usize = 0;
        while lane < num_envs
            invariant
                lane <= num_envs,
                lanes@.len() == lane,
                forall|i: int| 0 <= i < lane ==> #[trigger] lanes@[i] == i,
            decreases num_envs - lane,
        {
            lanes.push(lane);
            lane = lane + 1;
        }
    } else {
        let mut i: usize = 0;
        while i < env_indices.len()
            invariant
                i <= env_indices@.len(),
                lanes@.len() == i,
                forall|j: int| 0 <= j < i ==> #[trigger] lanes@[j] == env_indices@[j] as usize,
            decreases env_indices@.len() - i,
        {
            lanes.push(env_indices[i] as usize);
            i = i + 1;
        }
    }
    lanes
}

/// A protocol failure as a public error.
pub fn protocol_error_to_error(message: String) -> (error: Error)
    ensures
        error == Error::Internal(message),
{
    Error::Internal(message)
}

/// A failure an env implementation raised.
#[derive(Debug, Clone, PartialEq, Eq)]
pub enum EnvRuntimeError {
    /// A space specification was invalid.
    InvalidSpace(String),
    /// A value did not belong to its space.
    InvalidValue(String),
    /// Any other runtime failure.
    Runtime(String),
}

/// The wire failure of an env implementation's failure: a bad space or
/// value is an invalid action, anything else an internal failure.
pub fn gym_error_to_env_error(error: EnvRuntimeError) -> (wire: WireEnvError)
    ensures
        match error {
            EnvRuntimeError::InvalidSpace(message) => wire.code == WireErrorCode::InvalidAction
                && wire.message == message,
            EnvRuntimeError::InvalidValue(message) => wire.code == WireErrorCode::InvalidAction
                && wire.message == message,
            EnvRuntimeError::Runtime(message) => wire.code == WireErrorCode::Internal
                && wire.message == message,
        },
        wire.is_recoverable == code_is_recoverable(wire.code),
{
    match error {
        EnvRuntimeError::InvalidSpace(message) => WireEnvError::new(WireErrorCode::InvalidAction, message),
        EnvRuntimeError::InvalidValue(message) => WireEnvError::new(WireErrorCode::InvalidAction, message),
        EnvRuntimeError::Runtime(message) => WireEnvError::new(WireErrorCode::Internal, message),
    }
}

/// The reserved reset option carrying each lane's trial ordinal.
pub const TRIAL_INDEX_OPTION: &'static str = "trial_index";

/// The message of a trial list that does not cover the lanes of a reset.
pub open spec fn short_trial_list_text(entries: nat, lanes: nat) -> Seq<char> {
    "reset option `trial_index` is a list of "@ + decimal(entries) + " entries but this reset covers "@
        + decimal(lanes) + " lanes; send one ordinal per lane, in lane order"@
}

/// The reset options lane `pos` of a `lanes`-wide fan-out receives: a
/// `trial_index` list is narrowed to this lane's element, every other key rides
/// through unchanged, and a list that does not reach this lane is refused as
/// an invalid request.
pub fn lane_reset_options(options: Option<&MetaMap>, pos: usize, lanes: usize) -> (narrowed: Result<
    Option<MetaMap>,
    WireEnvError,
>)
    ensures
        options is None ==> narrowed matches Ok(None),
        options matches Some(map) ==> (match map.lookup("trial_index"@) {
            Some(MetaView::List(trials)) => if pos < trials.len() {
                narrowed matches Ok(Some(out)) && out.lookup("trial_index"@) == Some(trials[pos as int])
                    && forall|key: Seq<char>| key != "trial_index"@ ==> #[trigger] out.lookup(key) == map.lookup(key)
            } else {
                narrowed matches Err(error) && error.code == WireErrorCode::InvalidAction
                    && error.message@ == short_trial_list_text(trials.len(), lanes as nat)
            },
            _ => narrowed matches Ok(Some(out)) && out.deep_entries() == map.deep_entries(),
        }),
{
    let map = match options {
        None => return Ok(None),
        Some(map) => map,
    };
    proof {
        reveal_strlit("trial_index");
    }
    let trials = match map.get(TRIAL_INDEX_OPTION) {
        Some(MetaValue::List(trials)) => trials,
        _ => return Ok(Some(copy_map(map))),
    };
    if pos >= trials.len() {
        let mut message = String::from_str("reset option `trial_index` is a list of ");
        message.append(number_text(trials.len() as u64).as_str());
        message.append(" entries but this reset covers ");
        message.append(number_text(lanes as u64).as_str());
        message.append(" lanes; send one ordinal per lane, in lane order");
        return Err(WireEnvError::new(WireErrorCode::InvalidAction, message));
    }
    let trial = copy_value(&trials[pos]);
    let mut sliced = copy_map(map);
    sliced.insert(String::from_str(TRIAL_INDEX_OPTION), trial);
    Ok(Some(sliced))
}

/// The first per-lane vector of an env's step result whose length is not the
/// reply's width, checked in order: observations, terminated flags,
/// truncated flags, rewards (see [`count_text`]).
pub fn check_step_widths(observations: usize, terminated: usize, truncated: usize, rewards: usize, width: usize) -> (checked:
    Result<(), WireEnvError>)
    ensures
        observations == width && terminated == width && truncated == width && rewards == width ==> checked is Ok,
        observations != width ==> (checked matches Err(error) && error.code == WireErrorCode::Internal
            && error.message@ == count_text(observations as nat, "observations"@, width as nat)),
        observations == width && terminated != width ==> (checked matches Err(error) && error.code
            == WireErrorCode::Internal && error.message@ == count_text(
            terminated as nat,
            "terminated values"@,
            width as nat,
        )),
        observations == width && terminated == width && truncated != width ==> (checked matches Err(error)
            && error.code == WireErrorCode::Internal && error.message@ == count_text(
            truncated as nat,
            "truncated values"@,
            width as nat,
        )),
        observations == width && terminated == width && truncated == width && rewards != width ==> (checked matches Err(
            error,
        ) && error.code == WireErrorCode::Internal && error.message@ == count_text(
            rewards as nat,
            "rewards values"@,
            width as nat,
        )),
{
    proof {
        reveal_strlit("observations");
        reveal_strlit("terminated values");
        reveal_strlit("truncated values");
        reveal_strlit("rewards values");
    }
    if observations != width {
        return Err(count_error(observations, width, "observations"));
    }
    if terminated != width {
        return Err(count_error(terminated, width, "terminated values"));
    }
    if truncated != width {
        return Err(count_error(truncated, width, "truncated values"));
    }
    if rewards != width {
        return Err(count_error(rewards, width, "rewards values"));
    }
    Ok(())
}

fn count_error(returned: usize, width: usize, label: &str) -> (error: WireEnvError)
    ensures
        error.code == WireErrorCode::Internal,
        error.message@ == count_text(returned as nat, label@, width as nat),
{
    let mut message = String::from_str("env returned ");
    message.append(number_text(returned as u64).as_str());
    message.append(" ");
    message.append(label);
    message.append(" for ");
    message.append(number_text(width as u64).as_str());
    message.append(" envs");
    WireEnvError::new(WireErrorCode::Internal, message)
}

/// The message of a step naming lanes on an env that steps in lockstep.
pub open spec fn lockstep_step_text() -> Seq<char> {
    "this environment steps its whole vector in lockstep; a step naming lanes (StepRequest.env_indices) needs a lane endpoint"@
}

/// A lockstep env steps its whole vector at once: a step naming lanes is
/// unsupported there.
pub fn check_lockstep_step(env_indices: &Vec<u32>) -> (checked: Result<(), WireEnvError>)
    ensures
        env_indices@.len() == 0 ==> checked is Ok,
        env_indices@.len() > 0 ==> (checked matches Err(error) && error.code == WireErrorCode::Unsupported
            && error.message@ == lockstep_step_text()),
{
    if env_indices.len() == 0 {
        return Ok(());
    }
    let message = String::from_str(
        "this environment steps its whole vector in lockstep; a step naming lanes (StepRequest.env_indices) needs a lane endpoint",
    );
    proof {
        reveal_strlit(
            "this environment steps its whole vector in lockstep; a step naming lanes (StepRequest.env_indices) needs a lane endpoint",
        );
    }
    Err(WireEnvError::new(WireErrorCode::Unsupported, message))
}

/// How a lockstep env serves a reset: a reset naming lanes is a partial
/// reset of those lanes and its reply is that many lanes wide; a reset naming
/// none resets, and replies for, the whole vector.
pub fn reset_shape(num_envs: usize, env_indices: &Vec<i32>) -> (shape: (usize, bool))
    ensures
        env_indices@.len() == 0 ==> shape == (num_envs, false),
        env_indices@.len() > 0 ==> shape == (env_indices@.len() as usize, true),
{
    if env_indices.len() == 0 {
        (num_envs, false)
    } else {
        (env_indices.len(), true)
    }
}

/// The reset each lane of a fan-out receives: the `pos`-th lane gets the
/// `pos`-th seed (none past the end of the seeds), its slice of the options
/// (see [`lane_reset_options`]) and the shared deadline. A `trial_index` list
/// that does not reach every lane fails the whole reset.
pub fn lane_reset_requests(seeds: &Vec<i64>, options: Option<&MetaMap>, lanes: usize, timeout_ms: i64) -> (requests: Result<
    Vec<LaneResetRequest>,
    WireEnvError,
>)
    ensures
        match requests {
            Ok(requests) => requests@.len() == lanes && forall|pos: int|
                0 <= pos < lanes ==> {
                    &&& (#[trigger] requests@[pos]).seed == (if pos < seeds@.len() {
                        Some(seeds@[pos])
                    } else {
                        None
                    })
                    &&& requests@[pos].timeout_ms == timeout_ms
                    &&& lane_options_of(options, pos, lanes, requests@[pos].options)
                },
            Err(error) => exists|pos: int| 0 <= pos < lanes && #[trigger] lane_options_refused(options, pos, lanes, error),
        },
        lanes > 0 && lane_options_refused_any(options, lanes) ==> requests is Err,
{
    let mut requests: Vec<LaneResetRequest> = Vec::new();
    let mut pos: usize = 0;
    while pos < lanes
        invariant
            pos <= lanes,
            requests@.len() == pos,
            forall|p: int|
                0 <= p < pos ==> {
                    &&& (#[trigger] requests@[p]).seed == (if p < seeds@.len() {
                        Some(seeds@[p])
                    } else {
                        None
                    })
                    &&& requests@[p].timeout_ms == timeout_ms
                    &&& lane_options_of(options, p, lanes, requests@[p].options)
                },
        decreases lanes - pos,
    {
        let narrowed = match lane_reset_options(options, pos, lanes) {
            Ok(narrowed) => narrowed,
            Err(error) => {
                assert(lane_options_refused(options, pos as int, lanes, error));
                return Err(error);
            },
        };
        let seed = if pos < seeds.len() {
            Some(seeds[pos])
        } else {
            None
        };
        requests.push(LaneResetRequest { seed, options: narrowed, timeout_ms });
        pos = pos + 1;
    }
    proof {
        if lanes > 0 && lane_options_refused_any(options, lanes) {
            let trials = options->Some_0.lookup("trial_index"@)->Some_0->List_0;
            let p = trials.len() as int;
            assert(lane_options_of(options, p, lanes, requests@[p].options));
        }
    }
    Ok(requests)
}

/// Whether `narrowed` is what [`lane_reset_options`] gives lane `pos` of a
/// `lanes`-wide fan-out of `options`.
pub open spec fn lane_options_of(options: Option<&MetaMap>, pos: int, lanes: usize, narrowed: Option<MetaMap>) -> bool {
    match options {
        None => narrowed is None,
        Some(map) => match map.lookup("trial_index"@) {
            Some(MetaView::List(trials)) => pos < trials.len() && (narrowed matches Some(out) && out.lookup(
                "trial_index"@,
            ) == Some(trials[pos]) && forall|key: Seq<char>| key != "trial_index"@ ==> #[trigger] out.lookup(key) == map.lookup(key)),
            _ => narrowed matches Some(out) && out.deep_entries() == map.deep_entries(),
        },
    }
}

/// Whether [`lane_reset_options`] refuses lane `pos` of a `lanes`-wide
/// fan-out of `options` with `error`: the `trial_index` list does not reach it.
pub open spec fn lane_options_refused(options: Option<&MetaMap>, pos: int, lanes: usize, error: WireEnvError) -> bool {
    options matches Some(map) && (map.lookup("trial_index"@) matches Some(MetaView::List(trials)) && pos
        >= trials.len() && error.code == WireErrorCode::InvalidAction && error.message@ == short_trial_list_text(
        trials.len(),
        lanes as nat,
    ))
}

/// Whether `options` carry a `trial_index` list shorter than `lanes`.
pub open spec fn lane_options_refused_any(options: Option<&MetaMap>, lanes: usize) -> bool {
    options matches Some(map) && (map.lookup("trial_index"@) matches Some(MetaView::List(trials)) && trials.len()
        < lanes)
}

/// The lanes of a step that completed an episode: those that terminated or
/// were truncated.
pub fn completed_lanes(terminated: &Vec<bool>, truncated: &Vec<bool>) -> (done: Vec<bool>)
    requires
        terminated@.len() == truncated@.len(),
    ensures
        done@.len() == terminated@.len(),
        forall|i: int| 0 <= i < done@.len() ==> #[trigger] done@[i] == (terminated@[i] || truncated@[i]),
{
    let mut done: Vec<bool> = Vec::new();
    let mut i: usize = 0;
    while i < terminated.len()
        invariant
            terminated@.len() == truncated@.len(),
            i <= terminated@.len(),
            done@.len() == i,
            forall|j: int| 0 <= j < i ==> #[trigger] done@[j] == (terminated@[j] || truncated@[j]),
        decreases terminated@.len() - i,
    {
        done.push(terminated[i] || truncated[i]);
        i = i + 1;
    }
    done
}

/// The info of one lane of a batch, as a map's entries (an absent info is
/// an empty map).
pub open spec fn lane_info_view(info: Option<MetaMap>) -> MetaView {
    match info {
        Some(map) => MetaView::Dict(map.deep_entries()),
        None => MetaView::Dict(Seq::empty()),
    }
}

/// The `final_info` list of a batch of lane infos.
pub open spec fn final_info_view(infos: Seq<Option<MetaMap>>) -> MetaView {
    MetaView::List(Seq::new(infos.len(), |i: int| lane_info_view(infos[i])))
}

/// The `_final_info` mask of a batch: the done flags, or every lane when none
/// are given.
pub open spec fn final_info_mask(lanes: nat, done: Option<Seq<bool>>) -> MetaView {
    match done {
        Some(flags) => MetaView::List(Seq::new(flags.len(), |i: int| MetaView::Bool(flags[i]))),
        None => MetaView::List(Seq::new(lanes, |i: int| MetaView::Bool(true))),
    }
}

/// Batch per-lane info maps. One lane passes its info through unchanged; with
/// no info at all there is none; otherwise the batch follows the vector
/// convention: `final_info` lists one map per lane and `_final_info` masks the
/// lanes that completed (every lane when no done flags are given).
pub fn batch_infos(infos: Vec<Option<MetaMap>>, done: Option<&Vec<bool>>) -> (batched: Option<MetaMap>)
    ensures
        infos@.len() == 1 ==> batched == infos@[0],
        infos@.len() != 1 && (forall|i: int| 0 <= i < infos@.len() ==> (#[trigger] infos@[i]) is None)
            ==> batched is None,
        infos@.len() != 1 && (exists|i: int| 0 <= i < infos@.len() && (#[trigger] infos@[i]) is Some)
            ==> (batched matches Some(map) && map.deep_entries() == seq![
            ("_final_info"@, final_info_mask(infos@.len(), match done { Some(flags) => Some(flags@), None => None })),
            ("final_info"@, final_info_view(infos@)),
        ]),
{
    let ghost given = infos@;
    if infos.len() == 1 {
        let mut infos = infos;
        return infos.remove(0);
    }
    let mut any = false;
    let mut i: usize = 0;
    while i < infos.len()
        invariant
            i <= infos@.len(),
            any <==> exists|j: int| 0 <= j < i && (#[trigger] infos@[j]) is Some,
        decreases infos@.len() - i,
    {
        if infos[i].is_some() {
            any = true;
        }
        i = i + 1;
    }
    if !any {
        return None;
    }
    let mut mask: Vec<MetaValue> = Vec::new();
    match done {
        Some(flags) => {
            let mut k: usize = 0;
            while k < flags.len()
                invariant
                    k <= flags@.len(),
                    mask@.len() == k,
                    forall|j: int| 0 <= j < k ==> (#[trigger] mask@[j]).deep() == MetaView::Bool(flags@[j]),
                decreases flags@.len() - k,
            {
                mask.push(MetaValue::Bool(flags[k]));
                k = k + 1;
            }
        },
        None => {
            let mut k: usize = 0;
            while k < infos.len()
                invariant
                    k <= infos@.len(),
                    mask@.len() == k,
                    forall|j: int| 0 <= j < k ==> (#[trigger] mask@[j]).deep() == MetaView::Bool(true),
                decreases infos@.len() - k,
            {
                mask.push(MetaValue::Bool(true));
                k = k + 1;
            }
        },
    }
    let ghost mask_view = mask@;
    let lane_count = infos.len();
    let mut lanes: Vec<MetaValue> = Vec::new();
    let mut rest = infos;
    let mut k: usize = 0;
    while rest.len() > 0
        invariant
            lane_count == given.len(),
            k + rest@.len() == lane_count,
            rest@ == given.skip(k as int),
            lanes@.len() == k,
            forall|j: int| 0 <= j < k ==> (#[trigger] lanes@[j]).deep() == lane_info_view(given[j]),
        decreases rest@.len(),
    {
        let info = rest.remove(0);
        assert(info == given[k as int]);
        let map = match info {
            Some(map) => map,
            None => MetaMap::new(),
        };
        let value = MetaValue::Dict(map);
        proof {
            if given[k as int] is None {
                assert(map.deep_entries() =~= Seq::<(Seq<char>, MetaView)>::empty());
            }
        }
        lanes.push(value);
        k = k + 1;
        assert(rest@ =~= given.skip(k as int));
    }
    let mask_value = MetaValue::List(mask);
    let lanes_value = MetaValue::List(lanes);
    proof {
        assert(mask_value.deep()->List_0 =~= final_info_mask(
            given.len(),
            match done { Some(flags) => Some(flags@), None => None },
        )->List_0);
        assert(lanes_value.deep()->List_0 =~= final_info_view(given)->List_0);
    }
    let mut entries: Vec<(String, MetaValue)> = Vec::new();
    entries.push((String::from_str("_final_info"), mask_value));
    entries.push((String::from_str("final_info"), lanes_value));
    let batched = MetaMap { entries };
    proof {
        reveal_strlit("_final_info");
        reveal_strlit("final_info");
        assert(batched.deep_entries() =~= seq![
            ("_final_info"@, final_info_mask(given.len(), match done { Some(flags) => Some(flags@), None => None })),
            ("final_info"@, final_info_view(given)),
        ]);
    }
    Some(batched)
}

/// The phase split of one endpoint call, in nanoseconds.
#[derive(Debug, Clone, Copy, PartialEq, Eq, Default)]
pub struct EndpointPhases {
    /// Decoding the request.
    pub decode_ns: u64,
    /// The env's own work.
    pub user_ns: u64,
    /// Encoding the reply.
    pub encode_ns: u64,
    /// Waiting in a queue before the work started.
    pub queue_ns: u64,
    /// The spread between the fastest and slowest lane's work, for a batch.
    pub lane_skew_ns: Option<u64>,
}

/// A timing of [`EndpointPhases`].
pub enum PhaseField {
    /// `decode_ns`.
    Decode,
    /// `user_ns`.
    User,
    /// `encode_ns`.
    Encode,
    /// `queue_ns`.
    Queue,
}

/// The timing `field` of `phases`.
pub open spec fn field_of(phases: EndpointPhases, field: PhaseField) -> u64 {
    match field {
        PhaseField::Decode => phases.decode_ns,
        PhaseField::User => phases.user_ns,
        PhaseField::Encode => phases.encode_ns,
        PhaseField::Queue => phases.queue_ns,
    }
}

/// The sum of timing `f` over `phases`.
pub open spec fn total(phases: Seq<EndpointPhases>, f: PhaseField) -> int
    decreases phases.len(),
{
    if phases.len() == 0 {
        0
    } else {
        total(phases.drop_last(), f) + field_of(phases.last(), f)
    }
}

/// The largest timing `f` over `phases` (0 for none).
pub open spec fn largest(phases: Seq<EndpointPhases>, f: PhaseField) -> u64
    decreases phases.len(),
{
    if phases.len() == 0 {
        0
    } else {
        let rest = largest(phases.drop_last(), f);
        if field_of(phases.last(), f) > rest {
            field_of(phases.last(), f)
        } else {
            rest
        }
    }
}

/// The smallest timing `f` over `phases` (`u64::MAX` for none).
pub open spec fn smallest(phases: Seq<EndpointPhases>, f: PhaseField) -> u64
    decreases phases.len(),
{
    if phases.len() == 0 {
        u64::MAX
    } else {
        let rest = smallest(phases.drop_last(), f);
        if field_of(phases.last(), f) < rest {
            field_of(phases.last(), f)
        } else {
            rest
        }
    }
}

proof fn lemma_total_prefix(phases: Seq<EndpointPhases>, f: PhaseField, i: int)
    requires
        0 <= i <= phases.len(),
    ensures
        0 <= total(phases.take(i), f) <= total(phases, f),
    decreases phases.len() - i,
{
    if i < phases.len() {
        lemma_total_prefix(phases, f, i + 1);
        assert(phases.take(i + 1).drop_last() =~= phases.take(i));
        lemma_total_nonneg(phases.take(i), f);
    } else {
        assert(phases.take(i) =~= phases);
        lemma_total_nonneg(phases, f);
    }
}

proof fn lemma_total_nonneg(phases: Seq<EndpointPhases>, f: PhaseField)
    ensures
        total(phases, f) >= 0,
    decreases phases.len(),
{
    if phases.len() > 0 {
        lemma_total_nonneg(phases.drop_last(), f);
    }
}

/// The phase split of a concurrent lane batch: a lone lane's split as is;
/// otherwise the lanes' decode, user and encode times summed (their work
/// overlapped, so this is CPU, not wall), the longest queue wait, and the
/// spread between the fastest and slowest lane's work when any lane worked.
pub fn fold_phases(lane_phases: Vec<EndpointPhases>) -> (folded: EndpointPhases)
    requires
        total(lane_phases@, PhaseField::Decode) <= u64::MAX,
        total(lane_phases@, PhaseField::User) <= u64::MAX,
        total(lane_phases@, PhaseField::Encode) <= u64::MAX,
    ensures
        lane_phases@.len() == 1 ==> folded == lane_phases@[0],
        lane_phases@.len() != 1 ==> {
            let max_user = largest(lane_phases@, PhaseField::User);
            &&& folded.decode_ns == total(lane_phases@, PhaseField::Decode)
            &&& folded.user_ns == total(lane_phases@, PhaseField::User)
            &&& folded.encode_ns == total(lane_phases@, PhaseField::Encode)
            &&& folded.queue_ns == largest(lane_phases@, PhaseField::Queue)
            &&& folded.lane_skew_ns == if lane_phases@.len() > 0 && max_user > 0 {
                Some((max_user - smallest(lane_phases@, PhaseField::User)) as u64)
            } else {
                None
            }
        },
{
    if lane_phases.len() == 1 {
        return lane_phases[0];
    }
    let ghost phases = lane_phases@;
    let mut folded = EndpointPhases { decode_ns: 0, user_ns: 0, encode_ns: 0, queue_ns: 0, lane_skew_ns: None };
    let mut min_user: u64 = u64::MAX;
    let mut max_user: u64 = 0;
    let mut i: usize = 0;
    while i < lane_phases.len()
        invariant
            phases == lane_phases@,
            i <= phases.len(),
            total(phases, PhaseField::Decode) <= u64::MAX,
            total(phases, PhaseField::User) <= u64::MAX,
            total(phases, PhaseField::Encode) <= u64::MAX,
            folded.decode_ns == total(phases.take(i as int), PhaseField::Decode),
            folded.user_ns == total(phases.take(i as int), PhaseField::User),
            folded.encode_ns == total(phases.take(i as int), PhaseField::Encode),
            folded.queue_ns == largest(phases.take(i as int), PhaseField::Queue),
            folded.lane_skew_ns is None,
            min_user == smallest(phases.take(i as int), PhaseField::User),
            max_user == largest(phases.take(i as int), PhaseField::User),
        decreases phases.len() - i,
    {
        proof {
            assert(phases.take(i + 1).drop_last() =~= phases.take(i as int));
            assert(phases.take(i + 1).last() == phases[i as int]);
            lemma_total_prefix(phases, PhaseField::Decode, i + 1);
            lemma_total_prefix(phases, PhaseField::User, i + 1);
            lemma_total_prefix(phases, PhaseField::Encode, i + 1);
        }
        let p = lane_phases[i];
        folded.decode_ns = folded.decode_ns + p.decode_ns;
        folded.user_ns = folded.user_ns + p.user_ns;
        folded.encode_ns = folded.encode_ns + p.encode_ns;
        if p.queue_ns > folded.queue_ns {
            folded.queue_ns = p.queue_ns;
        }
        if p.user_ns < min_user {
            min_user = p.user_ns;
        }
        if p.user_ns > max_user {
            max_user = p.user_ns;
        }
        i = i + 1;
    }
    proof {
        assert(phases.take(phases.len() as int) =~= phases);
    }
    if lane_phases.len() > 0 && max_user > 0 {
        let skew = if max_user >= min_user {
            max_user - min_user
        } else {
            0
        };
        folded.lane_skew_ns = Some(skew);
    }
    folded
}

} // verus!
