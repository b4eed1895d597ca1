//! Routing metadata a model handler receives with each observation, and the
//! checks an observation passes before it is decoded.

use vstd::prelude::*;

use crate::error::Error;
use crate::spaces::EnvContract;
use crate::text::{decimal, number_text};

verus! {

/// Routing metadata attached to a model observation: the env (adapter) the
/// request belongs to and the ordered per-row episode ids. Row `i` of the
/// batched observation belongs to `episode_ids[i]`.
#[derive(Debug, Clone, Default, PartialEq, Eq)]
pub struct ModelRouteContext {
    /// Identifier of the session this request belongs to (correlation only).
    pub session_id: String,
    /// The connected env container this adapter serves; the routing key.
    pub env_id: String,
    /// Identifier of this individual request.
    pub request_id: String,
    /// Ordered per-row episode ids.
    pub episode_ids: Vec<String>,
}

/// The views of a vector of strings.
pub open spec fn texts(v: Seq<String>) -> Seq<Seq<char>> {
    v.map_values(|s: String| s@)
}

/// A copy of a vector of strings.
pub fn copy_strings(v: &Vec<String>) -> (copy: Vec<String>)
    ensures
        copy@ == v@,
{
    let mut copy: Vec<String> = Vec::new();
    let mut i: usize = 0;
    while i < v.len()
        invariant
            i <= v.len(),
            copy@ == v@.take(i as int),
        decreases v.len() - i,
    {
        copy.push(v[i].clone());
        i = i + 1;
        assert(copy@ =~= v@.take(i as int));
    }
    assert(v@.take(v.len() as int) =~= v@);
    copy
}

impl ModelRouteContext {
    /// The first row's episode id, or `""` if the batch is empty.
    pub fn primary_episode_id(&self) -> (id: &str)
        ensures
            id@ == (if self.episode_ids@.len() > 0 {
                self.episode_ids@[0]@
            } else {
                ""@
            }),
    {
        if self.episode_ids.len() > 0 {
            self.episode_ids[0].as_str()
        } else {
            ""
        }
    }

    /// The episode id of every row, in batch order.
    pub fn episode_ids(&self) -> (ids: Vec<String>)
        ensures
            ids@ == self.episode_ids@,
    {
        copy_strings(&self.episode_ids)
    }
}

/// Whether `checked` is a non-recoverable model error carrying `message`.
pub open spec fn is_model_refusal(checked: Result<(), Error>, message: Seq<char>) -> bool {
    checked matches Err(Error::Model(model)) && !model.is_recoverable && model.message@ == message
}

/// A predict request carries what a decode needs, checked without decoding:
/// an observation, the env contract, and the contract's observation space.
pub fn ensure_decodable(has_observation: bool, env_contract: Option<&EnvContract>) -> (checked: Result<(), Error>)
    ensures
        !has_observation ==> is_model_refusal(checked, "observation absent; a predict request must carry an observation"@),
        has_observation && env_contract is None ==> is_model_refusal(
            checked,
            "observation missing env contract; cannot decode"@,
        ),
        has_observation && (env_contract matches Some(c) && c.observation_space is None) ==> is_model_refusal(
            checked,
            "env contract missing observation space"@,
        ),
        has_observation && (env_contract matches Some(c) && c.observation_space is Some) ==> checked is Ok,
{
    proof {
        reveal_strlit("observation absent; a predict request must carry an observation");
        reveal_strlit("observation missing env contract; cannot decode");
        reveal_strlit("env contract missing observation space");
    }
    if !has_observation {
        return Err(Error::model(String::from_str("observation absent; a predict request must carry an observation")));
    }
    match env_contract {
        None => Err(Error::model(String::from_str("observation missing env contract; cannot decode"))),
        Some(contract) => if contract.observation_space.is_none() {
            Err(Error::model(String::from_str("env contract missing observation space")))
        } else {
            Ok(())
        },
    }
}

/// The checks before a decode into lanes: an absent observation is refused
/// rather than decoded to no lanes, then the env contract and its observation
/// space must be present.
pub fn check_lanes_decodable(has_observation: bool, env_contract: Option<&EnvContract>) -> (checked: Result<(), Error>)
    ensures
        !has_observation ==> is_model_refusal(
            checked,
            "observation absent; cannot decode lanes (check is_some() first)"@,
        ),
        has_observation && env_contract is None ==> is_model_refusal(
            checked,
            "observation missing env contract; cannot decode"@,
        ),
        has_observation && (env_contract matches Some(c) && c.observation_space is None) ==> is_model_refusal(
            checked,
            "env contract missing observation space"@,
        ),
        has_observation && (env_contract matches Some(c) && c.observation_space is Some) ==> checked is Ok,
{
    proof {
        reveal_strlit("observation absent; cannot decode lanes (check is_some() first)");
    }
    if !has_observation {
        return Err(Error::model(String::from_str("observation absent; cannot decode lanes (check is_some() first)")));
    }
    ensure_decodable(true, env_contract)
}

/// The message of a single-env decode of an observation with `lanes` lanes.
pub open spec fn single_lane_text(lanes: nat) -> Seq<char> {
    "decoded() requires a single-env observation, got "@ + decimal(lanes) + " lanes"@
}

/// A single-env decode needs exactly one lane; several are refused rather
/// than silently taking lane 0.
pub fn check_single_lane(lanes: usize) -> (checked: Result<(), Error>)
    ensures
        lanes == 1 ==> checked is Ok,
        lanes != 1 ==> is_model_refusal(checked, single_lane_text(lanes as nat)),
{
    if lanes == 1 {
        return Ok(());
    }
    let mut message = String::from_str("decoded() requires a single-env observation, got ");
    message.append(number_text(lanes as u64).as_str());
    message.append(" lanes");
    proof {
        reveal_strlit("decoded() requires a single-env observation, got ");
        reveal_strlit(" lanes");
    }
    Err(Error::model(message))
}

/// Whether `error` is a non-recoverable model error carrying `message`.
pub open spec fn is_refusal_error(error: Error, message: Seq<char>) -> bool {
    error matches Error::Model(model) && !model.is_recoverable && model.message@ == message
}

/// Whether `refused` is the refusal a decode of the lanes gets when the
/// observation, the env contract or its observation space is missing (see
/// [`check_lanes_decodable`]); none when all three are there.
pub open spec fn lanes_refusal(has_observation: bool, env_contract: Option<&EnvContract>, refused: Error) -> bool {
    if !has_observation {
        is_refusal_error(refused, "observation absent; cannot decode lanes (check is_some() first)"@)
    } else if env_contract is None {
        is_refusal_error(refused, "observation missing env contract; cannot decode"@)
    } else {
        is_refusal_error(refused, "env contract missing observation space"@)
    }
}

/// Whether an observation is decodable: it is there, with an env contract
/// that names an observation space.
pub open spec fn is_decodable(has_observation: bool, env_contract: Option<&EnvContract>) -> bool {
    has_observation && (env_contract matches Some(c) && c.observation_space is Some)
}

/// An observation's decoded lanes, once the checks of
/// [`check_lanes_decodable`] pass; an absent observation is an error, never
/// an empty batch.
pub fn decoded_lanes<V>(observation: Option<Vec<V>>, env_contract: Option<&EnvContract>) -> (lanes: Result<Vec<V>, Error>)
    ensures
        is_decodable(observation is Some, env_contract) ==> lanes == Ok::<Vec<V>, Error>(observation->Some_0),
        !is_decodable(observation is Some, env_contract) ==> (lanes matches Err(refused) && lanes_refusal(
            observation is Some,
            env_contract,
            refused,
        )),
{
    match check_lanes_decodable(observation.is_some(), env_contract) {
        Ok(()) => {},
        Err(error) => return Err(error),
    }
    match observation {
        Some(lanes) => Ok(lanes),
        None => Ok(Vec::new()),
    }
}

/// The single lane of a single-env observation: the lane checks of
/// [`decoded_lanes`], then exactly one lane (see [`check_single_lane`]).
pub fn decoded_single<V>(observation: Option<Vec<V>>, env_contract: Option<&EnvContract>) -> (lane: Result<V, Error>)
    ensures
        is_decodable(observation is Some, env_contract) && observation->Some_0@.len() == 1 ==> lane == Ok::<
            V,
            Error,
        >(observation->Some_0@[0]),
        is_decodable(observation is Some, env_contract) && observation->Some_0@.len() != 1 ==> (lane matches Err(
            refused,
        ) && is_refusal_error(refused, single_lane_text(observation->Some_0@.len()))),
        !is_decodable(observation is Some, env_contract) ==> (lane matches Err(refused) && lanes_refusal(
            observation is Some,
            env_contract,
            refused,
        )),
{
    let mut lanes = match decoded_lanes(observation, env_contract) {
        Ok(lanes) => lanes,
        Err(error) => return Err(error),
    };
    match check_single_lane(lanes.len()) {
        Ok(()) => {},
        Err(error) => return Err(error),
    }
    Ok(lanes.remove(0))
}

} // verus!
