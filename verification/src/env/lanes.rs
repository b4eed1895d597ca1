//! The checks of an endpoint that hosts N scalar envs as its lanes: every
//! lane must carry lane 0's contract, and a request must name a lane that
//! exists and still runs.

use vstd::prelude::*;

use crate::env::wire::EnvRuntimeError;
use crate::spaces::{same_contract, same_env_contract, EnvContract};
use crate::text::{decimal, number_text};

verus! {

/// The message of lane `index` carrying a contract other than lane 0's.
pub open spec fn disagreeing_lane_text(index: nat) -> Seq<char> {
    "lane "@ + decimal(index)
        + " disagrees with lane 0 on the env contract (spaces, metadata, tags): every lane of one endpoint must be the same make()"@
}

/// The lanes of one endpoint are served lane 0's contract, since the model
/// resolves its adapter against lane 0 alone: every other lane must carry the
/// same contract, and the first that does not is refused.
pub fn check_lane_contracts(contracts: &Vec<EnvContract>) -> (checked: Result<(), EnvRuntimeError>)
    requires
        contracts@.len() > 0,
    ensures
        (forall|i: int| 1 <= i < contracts@.len() ==> same_contract(#[trigger] contracts@[i], contracts@[0]))
            <==> checked is Ok,
        checked is Err ==> exists|i: int|
            1 <= i < contracts@.len() && !same_contract(#[trigger] contracts@[i], contracts@[0]) && (forall|j: int|
                1 <= j < i ==> same_contract(#[trigger] contracts@[j], contracts@[0])) && (checked matches Err(
                EnvRuntimeError::Runtime(message),
            ) && message@ == disagreeing_lane_text(i as nat)),
{
    let mut index: usize = 1;
    while index < contracts.len()
        invariant
            1 <= index <= contracts@.len(),
            forall|j: int| 1 <= j < index ==> same_contract(#[trigger] contracts@[j], contracts@[0]),
        decreases contracts@.len() - index,
    {
        if !same_env_contract(&contracts[index], &contracts[0]) {
            let mut message = String::from_str("lane ");
            message.append(number_text(index as u64).as_str());
            message.append(
                " disagrees with lane 0 on the env contract (spaces, metadata, tags): every lane of one endpoint must be the same make()",
            );
            proof {
                reveal_strlit("lane ");
                reveal_strlit(
                    " disagrees with lane 0 on the env contract (spaces, metadata, tags): every lane of one endpoint must be the same make()",
                );
                assert(message@ =~= disagreeing_lane_text(index as nat));
            }
            return Err(EnvRuntimeError::Runtime(message));
        }
        index = index + 1;
    }
    Ok(())
}

/// The message of a request naming lane `index` of `lanes`.
pub open spec fn lane_out_of_range_text(index: nat, lanes: nat) -> Seq<char> {
    "lane "@ + decimal(index) + " out of range for "@ + decimal(lanes) + " lanes"@
}

/// A request must name one of the endpoint's `lanes` lanes.
pub fn check_lane_index(index: usize, lanes: usize) -> (checked: Result<(), EnvRuntimeError>)
    ensures
        index < lanes ==> checked is Ok,
        index >= lanes ==> (checked matches Err(EnvRuntimeError::Runtime(message)) && message@
            == lane_out_of_range_text(index as nat, lanes as nat)),
{
    if index < lanes {
        return Ok(());
    }
    let mut message = String::from_str("lane ");
    message.append(number_text(index as u64).as_str());
    message.append(" out of range for ");
    message.append(number_text(lanes as u64).as_str());
    message.append(" lanes");
    proof {
        reveal_strlit("lane ");
        reveal_strlit(" out of range for ");
        reveal_strlit(" lanes");
        assert(message@ =~= lane_out_of_range_text(index as nat, lanes as nat));
    }
    Err(EnvRuntimeError::Runtime(message))
}

/// The failure of a request to a lane whose thread no longer takes work.
pub fn lane_gone_error(lane: usize) -> (error: EnvRuntimeError)
    ensures
        error matches EnvRuntimeError::Runtime(message) && message@ == "lane "@ + decimal(lane as nat)
            + " is no longer running"@,
{
    let mut message = String::from_str("lane ");
    message.append(number_text(lane as u64).as_str());
    message.append(" is no longer running");
    proof {
        reveal_strlit("lane ");
        reveal_strlit(" is no longer running");
    }
    EnvRuntimeError::Runtime(message)
}

/// The failure of a request whose lane stopped before answering it.
pub fn lane_unanswered_error(lane: usize) -> (error: EnvRuntimeError)
    ensures
        error matches EnvRuntimeError::Runtime(message) && message@ == "lane "@ + decimal(lane as nat)
            + " stopped before answering (its thread panicked?)"@,
{
    let mut message = String::from_str("lane ");
    message.append(number_text(lane as u64).as_str());
    message.append(" stopped before answering (its thread panicked?)");
    proof {
        reveal_strlit("lane ");
        reveal_strlit(" stopped before answering (its thread panicked?)");
    }
    EnvRuntimeError::Runtime(message)
}

} // verus!
