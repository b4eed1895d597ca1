//! The in-process run's decisions: the checks before the runtime loop starts,
//! how the driver's failures map back onto the public error taxonomy, and how
//! a grouped predict's results line up with its requests.

use std::time::Duration;

use vstd::prelude::*;

use crate::error::{spec_is_recoverable, EnvironmentError, Error, ErrorCode};
use crate::model::engine::PredictFrames;
use crate::model::server::{check_predict_count, is_pairing, pair_grouped_outcomes, predict_count_text};
use crate::text::{decimal, number_text};
use crate::transport::{error_from_transport, maps_to, TransportError};

verus! {

/// The message of an env contract with no action space.
pub open spec fn missing_action_space_text() -> Seq<char> {
    "env contract has no action_space; a model cannot encode actions without it"@
}

/// The env a local run drives must name an action space: every predict
/// encodes its actions against it.
pub fn check_local_action_space(has_action_space: bool) -> (checked: Result<(), Error>)
    ensures
        has_action_space ==> checked is Ok,
        !has_action_space ==> (checked matches Err(Error::Internal(message)) && message@
            == missing_action_space_text()),
{
    if has_action_space {
        return Ok(());
    }
    let message = String::from_str("env contract has no action_space; a model cannot encode actions without it");
    proof {
        reveal_strlit("env contract has no action_space; a model cannot encode actions without it");
    }
    Err(Error::Internal(message))
}

/// The message of chunking over a lockstep vector env.
pub open spec fn lockstep_chunking_text(horizon: u32, num_envs: nat) -> Seq<char> {
    "execution_horizon="@ + decimal(horizon as nat) + " cannot be combined with a lockstep vector env (num_envs="@
        + decimal(num_envs)
        + "): chunk replay is whole-batch, so one lane's episode end discards every lane's buffered frames. Use num_envs=1, a lane endpoint, or execution_horizon=1."@
}

/// Action chunking over a lockstep vector env is refused: its replay is
/// whole-batch, so one lane's episode end would discard every lane's buffered
/// frames. A lane endpoint replays per lane and may chunk.
pub fn check_lockstep_chunking(num_envs: usize, subset_step: bool, execution_horizon: u32) -> (checked: Result<(), Error>)
    ensures
        (num_envs > 1 && !subset_step && execution_horizon > 1) ==> (checked matches Err(Error::Internal(message))
            && message@ == lockstep_chunking_text(execution_horizon, num_envs as nat)),
        !(num_envs > 1 && !subset_step && execution_horizon > 1) ==> checked is Ok,
{
    if num_envs > 1 && !subset_step && execution_horizon > 1 {
        let mut message = String::from_str("execution_horizon=");
        message.append(number_text(execution_horizon as u64).as_str());
        message.append(" cannot be combined with a lockstep vector env (num_envs=");
        message.append(number_text(num_envs as u64).as_str());
        message.append(
            "): chunk replay is whole-batch, so one lane's episode end discards every lane's buffered frames. Use num_envs=1, a lane endpoint, or execution_horizon=1.",
        );
        return Err(Error::Internal(message));
    }
    Ok(())
}

/// A failure of the runtime driver, with what the mapping reads of it.
#[derive(Debug, Clone, PartialEq, Eq)]
pub enum RuntimeFailure {
    /// A model call failed: the driver's message, whether it is recoverable,
    /// and the public error it wraps, when it wraps one.
    ModelRpc {
        /// The driver's message (it names the operation and the step).
        message: String,
        /// Whether the driver may retry.
        recoverable: bool,
        /// The wrapped public error, if any.
        source: Option<Error>,
    },
    /// An env call failed: the driver's message, whether it is recoverable,
    /// and the transport failure it wraps, when it wraps one.
    EnvRpc {
        /// The driver's message.
        message: String,
        /// Whether the driver may retry.
        recoverable: bool,
        /// The wrapped transport failure, if any.
        source: Option<TransportError>,
    },
    /// An operation exceeded its deadline.
    OperationTimeout {
        /// The deadline that passed.
        timeout: Duration,
    },
    /// Any other failure, as its message.
    Other(String),
}

/// Whether `public` is the public error of driver failure `failure`: a model
/// failure gives back the public error it wraps (or a model error carrying
/// the driver's message and recoverability); an env failure keeps the
/// driver's message and takes its classification from the transport failure
/// it wraps (connection, timeout, env code), or is an internal env error
/// with the driver's recoverability; a timeout stays a timeout; anything else
/// is internal.
pub open spec fn run_error_of(failure: RuntimeFailure, public: Error) -> bool {
    match failure {
        RuntimeFailure::ModelRpc { message, recoverable, source } => match source {
            Some(error) => public == error,
            None => public == Error::Model(crate::error::ModelError { message, is_recoverable: recoverable }),
        },
        RuntimeFailure::EnvRpc { message, recoverable, source } => {
            let fallback = Error::Environment(
                EnvironmentError { code: ErrorCode::Internal, message, is_recoverable: recoverable },
            );
            match source {
                Some(transport) => exists|mapped: Error|
                    #[trigger] maps_to(transport, mapped) && match mapped {
                        Error::Connection(_) => public == Error::Connection(message),
                        Error::Timeout(timeout) => public == Error::Timeout(timeout),
                        Error::Environment(env) => public == Error::Environment(
                            EnvironmentError { code: env.code, message, is_recoverable: env.is_recoverable },
                        ),
                        _ => public == fallback,
                    },
                None => public == fallback,
            }
        },
        RuntimeFailure::OperationTimeout { timeout } => public == Error::Timeout(timeout),
        RuntimeFailure::Other(message) => public == Error::Internal(message),
    }
}

/// Map a driver failure back onto the public error taxonomy (see
/// [`run_error_of`]).
pub fn run_error(failure: RuntimeFailure) -> (public: Error)
    ensures
        run_error_of(failure, public),
{
    match failure {
        RuntimeFailure::ModelRpc { message, recoverable, source } => match source {
            Some(error) => error,
            None => if recoverable {
                Error::model_recoverable(message)
            } else {
                Error::model(message)
            },
        },
        RuntimeFailure::EnvRpc { message, recoverable, source } => {
            let fallback = |message: String, recoverable: bool| -> (e: Error)
                ensures
                    e == Error::Environment(
                        EnvironmentError { code: ErrorCode::Internal, message, is_recoverable: recoverable },
                    ),
                {
                    Error::Environment(
                        EnvironmentError { code: ErrorCode::Internal, message, is_recoverable: recoverable },
                    )
                };
            match source {
                Some(transport) => {
                    let ghost given = transport;
                    let mapped = error_from_transport(transport);
                    let public = match mapped {
                        Error::Connection(_) => Error::Connection(message),
                        Error::Timeout(timeout) => Error::Timeout(timeout),
                        Error::Environment(env) => Error::Environment(
                            EnvironmentError { code: env.code, message, is_recoverable: env.is_recoverable },
                        ),
                        _ => fallback(message, recoverable),
                    };
                    proof {
                        assert(maps_to(given, mapped));
                    }
                    public
                },
                None => fallback(message, recoverable),
            }
        },
        RuntimeFailure::OperationTimeout { timeout } => Error::Timeout(timeout),
        RuntimeFailure::Other(message) => Error::Internal(message),
    }
}

/// A model failure as the driver carries it: the public error's recoverable
/// flag is kept, so a recoverable handler decline stays recoverable.
pub fn model_rpc(error: Error) -> (failure: RuntimeFailure)
    ensures
        failure matches RuntimeFailure::ModelRpc { message, recoverable, source } && recoverable
            == spec_is_recoverable(error) && source == Some(error) && message@ == crate::error::error_text(error),
{
    let recoverable = error.is_recoverable();
    let message = error.to_text();
    RuntimeFailure::ModelRpc { message, recoverable, source: Some(error) }
}

/// The message of a grouped predict that answered fewer requests than were
/// prepared.
pub const SHORT_LOCAL_MESSAGE: &'static str = "predict_grouped returned fewer results than prepared groups";

/// The number of held episodes a phase split reports: saturating at `u32::MAX`.
pub fn held_episodes_count(episodes: u64) -> (count: u32)
    ensures
        count == if episodes <= u32::MAX {
            episodes as u32
        } else {
            u32::MAX
        },
{
    if episodes <= 4294967295u64 {
        episodes as u32
    } else {
        4294967295u32
    }
}

/// The lane count of one request of a grouped predict: its own row count, at
/// least one.
pub fn request_lane_count(rows: usize) -> (count: usize)
    ensures
        count == if rows < 1 {
            1
        } else {
            rows
        },
{
    if rows < 1 {
        1
    } else {
        rows
    }
}

/// Line a local grouped predict's results up with its requests (see
/// [`pair_grouped_outcomes`]); with no action space every request fails.
pub fn pair_local_results<F, T>(
    has_action_space: bool,
    prepared: Vec<Result<F, Error>>,
    results: Vec<Result<T, Error>>,
) -> (paired: Vec<Result<(F, T), Error>>)
    ensures
        paired@.len() == prepared@.len(),
        has_action_space ==> is_pairing(paired@, prepared@, results@, SHORT_LOCAL_MESSAGE@),
        !has_action_space ==> forall|g: int|
            0 <= g < paired@.len() ==> ((#[trigger] paired@[g]) matches Err(Error::Model(model)) && !model.is_recoverable
                && model.message@ == "model route contract missing action space"@),
{
    if !has_action_space {
        let count = prepared.len();
        let mut paired: Vec<Result<(F, T), Error>> = Vec::new();
        let mut g: usize = 0;
        while g < count
            invariant
                g <= count,
                paired@.len() == g,
                forall|h: int|
                    0 <= h < g ==> ((#[trigger] paired@[h]) matches Err(Error::Model(model)) && !model.is_recoverable
                        && model.message@ == "model route contract missing action space"@),
            decreases count - g,
        {
            let message = String::from_str("model route contract missing action space");
            proof {
                reveal_strlit("model route contract missing action space");
            }
            paired.push(Err(Error::model(message)));
            g = g + 1;
        }
        return paired;
    }
    pair_grouped_outcomes(prepared, results, SHORT_LOCAL_MESSAGE)
}

/// Whether `finished` is the local answer to the paired group `paired`: a
/// pairing failure as is; answered frames kept only when they hold one action
/// per lane of the group.
pub open spec fn lane_count_checked<F, A>(
    paired: Result<((F, usize), PredictFrames<A>), Error>,
    finished: Result<(F, PredictFrames<A>), Error>,
) -> bool {
    match paired {
        Err(error) => finished == Err::<(F, PredictFrames<A>), Error>(error),
        Ok(((finisher, lanes), frames)) => if frames.actions@.len() == lanes {
            finished == Ok::<(F, PredictFrames<A>), Error>((finisher, frames))
        } else {
            finished matches Err(Error::Model(model)) && !model.is_recoverable && model.message@
                == predict_count_text(frames.actions@.len(), lanes as nat)
        },
    }
}

/// Line a local grouped predict's results up with its requests (see
/// [`pair_local_results`]), each prepared group carrying its lane count, and
/// refuse an answer that does not hold one action per lane of its group.
pub fn finish_local_results<F, A>(
    has_action_space: bool,
    prepared: Vec<Result<(F, usize), Error>>,
    results: Vec<Result<PredictFrames<A>, Error>>,
) -> (finished: Vec<Result<(F, PredictFrames<A>), Error>>)
    ensures
        finished@.len() == prepared@.len(),
        has_action_space ==> exists|paired: Seq<Result<((F, usize), PredictFrames<A>), Error>>|
            #[trigger] is_pairing(paired, prepared@, results@, SHORT_LOCAL_MESSAGE@) && forall|g: int|
                0 <= g < paired.len() ==> lane_count_checked(paired[g], #[trigger] finished@[g]),
        !has_action_space ==> forall|g: int|
            0 <= g < finished@.len() ==> ((#[trigger] finished@[g]) matches Err(Error::Model(model))
                && !model.is_recoverable && model.message@ == "model route contract missing action space"@),
{
    let paired = pair_local_results(has_action_space, prepared, results);
    let ghost paired_view = paired@;
    let count = paired.len();
    let mut rest = paired;
    let mut finished: Vec<Result<(F, PredictFrames<A>), Error>> = Vec::new();
    let mut g: usize = 0;
    while rest.len() > 0
        invariant
            count == paired_view.len(),
            g + rest@.len() == count,
            rest@ == paired_view.skip(g as int),
            finished@.len() == g,
            forall|h: int| 0 <= h < g ==> lane_count_checked(paired_view[h], #[trigger] finished@[h]),
        decreases rest@.len(),
    {
        let outcome = rest.remove(0);
        assert(outcome == paired_view[g as int]);
        let checked = match outcome {
            Err(error) => Err(error),
            Ok(((finisher, lanes), frames)) => match check_predict_count(frames.actions.len(), lanes) {
                Ok(()) => Ok((finisher, frames)),
                Err(error) => Err(error),
            },
        };
        finished.push(checked);
        g = g + 1;
        assert(rest@ =~= paired_view.skip(g as int));
    }
    proof {
        if !has_action_space {
            assert forall|h: int| 0 <= h < finished@.len() implies ((#[trigger] finished@[h]) matches Err(
                Error::Model(model),
            ) && !model.is_recoverable && model.message@ == "model route contract missing action space"@) by {
                assert(lane_count_checked(paired_view[h], finished@[h]));
            }
        }
    }
    finished
}

} // verus!
