//! The direct env client's checks on what the server reports.

use vstd::prelude::*;

use crate::error::Error;
use crate::spaces::EnvContract;
use crate::text::{decimal, number_text};

verus! {

/// A remote env's contract must carry both spaces: observations are decoded
/// and actions encoded against them.
pub fn validate_env_contract(env_contract: &EnvContract) -> (checked: Result<(), Error>)
    ensures
        env_contract.observation_space is None ==> (checked matches Err(Error::Internal(message)) && message@
            == "remote env contract missing observation_space"@),
        env_contract.observation_space is Some && env_contract.action_space is None ==> (checked matches Err(
            Error::Internal(message),
        ) && message@ == "remote env contract missing action_space"@),
        env_contract.observation_space is Some && env_contract.action_space is Some ==> checked is Ok,
{
    proof {
        reveal_strlit("remote env contract missing observation_space");
        reveal_strlit("remote env contract missing action_space");
    }
    if env_contract.observation_space.is_none() {
        return Err(Error::Internal(String::from_str("remote env contract missing observation_space")));
    }
    if env_contract.action_space.is_none() {
        return Err(Error::Internal(String::from_str("remote env contract missing action_space")));
    }
    Ok(())
}

/// The message of a scalar client connected to a vector endpoint.
pub open spec fn vector_endpoint_text(num_envs: nat) -> Seq<char> {
    "RemoteEnv connects to one environment, but the endpoint reports num_envs="@ + decimal(num_envs)
        + "; use RemoteVectorEnv instead"@
}

/// The scalar client serves exactly one environment.
pub fn check_scalar_endpoint(num_envs: usize) -> (checked: Result<(), Error>)
    ensures
        num_envs == 1 ==> checked is Ok,
        num_envs != 1 ==> (checked matches Err(Error::Internal(message)) && message@ == vector_endpoint_text(
            num_envs as nat,
        )),
{
    if num_envs == 1 {
        return Ok(());
    }
    let mut message = String::from_str("RemoteEnv connects to one environment, but the endpoint reports num_envs=");
    message.append(number_text(num_envs as u64).as_str());
    message.append("; use RemoteVectorEnv instead");
    Err(Error::Internal(message))
}

/// The per-lane flags of a wire mask: any non-zero byte is set.
pub fn mask_flags(mask: &Vec<u8>) -> (flags: Vec<bool>)
    ensures
        flags@.len() == mask@.len(),
        forall|i: int| 0 <= i < mask@.len() ==> #[trigger] flags@[i] == (mask@[i] != 0),
{
    let mut flags: Vec<bool> = Vec::new();
    let mut i: usize = 0;
    while i < mask.len()
        invariant
            i <= mask@.len(),
            flags@.len() == i,
            forall|j: int| 0 <= j < i ==> #[trigger] flags@[j] == (mask@[j] != 0),
        decreases mask@.len() - i,
    {
        flags.push(mask[i] != 0);
        i = i + 1;
    }
    flags
}

/// The wire mask of per-lane flags: one byte per lane, one for a set flag.
pub fn flags_mask(flags: &Vec<bool>) -> (mask: Vec<u8>)
    ensures
        mask@.len() == flags@.len(),
        forall|i: int| 0 <= i < flags@.len() ==> #[trigger] mask@[i] == (if flags@[i] { 1u8 } else { 0u8 }),
{
    let mut mask: Vec<u8> = Vec::new();
    let mut i: usize = 0;
    while i < flags.len()
        invariant
            i <= flags@.len(),
            mask@.len() == i,
            forall|j: int| 0 <= j < i ==> #[trigger] mask@[j] == (if flags@[j] { 1u8 } else { 0u8 }),
        decreases flags@.len() - i,
    {
        mask.push(if flags[i] { 1u8 } else { 0u8 });
        i = i + 1;
    }
    mask
}

/// A flag round-trips through its wire mask byte.
pub proof fn lemma_mask_roundtrip(flag: bool)
    ensures
        ((if flag { 1u8 } else { 0u8 }) != 0) == flag,
{
}

} // verus!
