//! The served model's wire checks: validating a predict's route, refusing
//! actions that do not fit the action space, the wire form of a handler's
//! failure, and the endpoint duration it reports.

use std::time::{Duration, Instant};

use vstd::prelude::*;

use crate::error::{error_text, Error};
use crate::text::{decimal, decimal_int, int_text, number_text};

verus! {

/// `std::time::Instant`, carried through opaquely.
#[verifier::external_type_specification]
#[verifier::external_body]
pub struct ExInstant(Instant);

/// The time elapsed since `started` (`Instant::elapsed`). It rests on the
/// clock, so nothing is said of it.
#[verifier::external_body]
fn elapsed_since(started: &Instant) -> (elapsed: Duration) {
    started.elapsed()
}

/// The whole nanoseconds of `duration` (`Duration::as_nanos`).
pub uninterp spec fn duration_nanos(duration: Duration) -> u128;

/// The whole nanoseconds of `duration` (`Duration::as_nanos`).
#[verifier::external_body]
fn nanos_of(duration: &Duration) -> (nanos: u128)
    ensures
        nanos == duration_nanos(*duration),
{
    duration.as_nanos()
}

/// A count of nanoseconds as the wire's `u64`, saturating at `u64::MAX`.
pub open spec fn saturated_nanos(nanos: u128) -> u64 {
    if nanos <= u64::MAX {
        nanos as u64
    } else {
        u64::MAX
    }
}

/// A duration in nanoseconds as the wire's `u64`, saturating at `u64::MAX`.
pub fn saturating_nanos(nanos: u128) -> (total: u64)
    ensures
        total == saturated_nanos(nanos),
{
    if nanos <= 18446744073709551615u128 {
        nanos as u64
    } else {
        18446744073709551615u64
    }
}

/// The endpoint-local duration of an operation started at `started_at`, in
/// nanoseconds, saturating at `u64::MAX`.
pub fn model_endpoint_total_ns(started_at: Instant) -> (total: u64)
    ensures
        exists|elapsed: Duration| total == saturated_nanos(#[trigger] duration_nanos(elapsed)),
{
    let elapsed = elapsed_since(&started_at);
    let total = saturating_nanos(nanos_of(&elapsed));
    assert(total == saturated_nanos(duration_nanos(elapsed)));
    total
}

/// The classification of a model failure on the wire.
#[derive(Debug, Clone, Copy, PartialEq, Eq)]
pub enum ModelErrorCode {
    /// The request itself was malformed.
    InvalidRequest,
    /// The handler or the server failed.
    Internal,
}

/// A model failure as the wire reports it.
#[derive(Debug, Clone, PartialEq, Eq)]
pub struct WireModelError {
    /// The failure's classification.
    pub code: ModelErrorCode,
    /// Human-readable description.
    pub message: String,
    /// Whether the caller may retry.
    pub is_recoverable: bool,
    /// Extra detail for debugging; empty when none.
    pub debug_info: String,
}

/// The wire failure of a malformed request: never recoverable.
pub fn model_error(message: String) -> (error: WireModelError)
    ensures
        error.code == ModelErrorCode::InvalidRequest,
        error.message == message,
        !error.is_recoverable,
        error.debug_info@ == Seq::<char>::empty(),
{
    WireModelError { code: ModelErrorCode::InvalidRequest, message, is_recoverable: false, debug_info: String::new() }
}

/// The wire failure of a handler's error: an internal failure carrying the
/// error's text, recoverable only when the handler said a model error is.
pub fn model_error_value(error: &Error) -> (wire: WireModelError)
    ensures
        wire.code == ModelErrorCode::Internal,
        wire.message@ == error_text(*error),
        wire.is_recoverable == (error matches Error::Model(model) && model.is_recoverable),
        wire.debug_info@ == Seq::<char>::empty(),
{
    let is_recoverable = match error {
        Error::Model(model) => model.is_recoverable,
        _ => false,
    };
    WireModelError { code: ModelErrorCode::Internal, message: error.to_text(), is_recoverable, debug_info: String::new() }
}

/// The message of the first action that does not fit the action space.
pub open spec fn nonconforming_action_text(lane: nat, reason: Seq<char>) -> Seq<char> {
    "model action for lane "@ + decimal(lane) + " does not match the action space: "@ + reason
}

/// Refuse the first lane whose action structurally mismatches the action
/// space: `mismatches[lane]` is the reason that lane's action does not fit,
/// or none when it does.
pub fn check_actions_conform(mismatches: &Vec<Option<String>>) -> (checked: Result<(), Error>)
    ensures
        (forall|lane: int| 0 <= lane < mismatches@.len() ==> (#[trigger] mismatches@[lane]) is None) ==> checked is Ok,
        checked is Err ==> exists|lane: int|
            0 <= lane < mismatches@.len() && (forall|other: int| 0 <= other < lane ==> (#[trigger] mismatches@[other]) is None)
                && (#[trigger] mismatches@[lane] matches Some(reason) && checked matches Err(Error::Model(model))
                && !model.is_recoverable && model.message@ == nonconforming_action_text(lane as nat, reason@)),
        (exists|lane: int| 0 <= lane < mismatches@.len() && (#[trigger] mismatches@[lane]) is Some) ==> checked is Err,
{
    let mut lane: usize = 0;
    while lane < mismatches.len()
        invariant
            lane <= mismatches@.len(),
            forall|other: int| 0 <= other < lane ==> (#[trigger] mismatches@[other]) is None,
        decreases mismatches@.len() - lane,
    {
        match &mismatches[lane] {
            Some(reason) => {
                let mut message = String::from_str("model action for lane ");
                message.append(number_text(lane as u64).as_str());
                message.append(" does not match the action space: ");
                message.append(reason.as_str());
                let error = Error::model(message);
                proof {
                    assert(mismatches@[lane as int] matches Some(r) && r == *reason);
                }
                return Err(error);
            },
            None => {},
        }
        lane = lane + 1;
    }
    Ok(())
}

/// One lane of a predict's route: the episode it belongs to, its env index,
/// its step and whether it starts an episode.
#[derive(Debug, Clone, PartialEq, Eq)]
pub struct RouteSlot {
    /// The episode the lane's row belongs to.
    pub episode_id: String,
    /// The lane's env index.
    pub env_index: i32,
    /// The lane's env step.
    pub step: i64,
    /// Whether the lane starts a new episode.
    pub reset: bool,
}

/// The route of a predict request.
#[derive(Debug, Clone, PartialEq, Eq)]
pub struct PredictRoute {
    /// The session the request belongs to.
    pub session_id: String,
    /// The route the request belongs to.
    pub route_id: String,
    /// The request's id.
    pub request_id: String,
    /// The request's lanes.
    pub slots: Vec<RouteSlot>,
}

/// A lane of a predict's route as the wire carries it: an unsigned env index.
#[derive(Debug, Clone, PartialEq, Eq)]
pub struct WirePredictSlot {
    /// The episode the lane's row belongs to.
    pub episode_id: String,
    /// The lane's env index.
    pub env_index: u32,
    /// The lane's env step.
    pub step: i64,
    /// Whether the lane starts a new episode.
    pub reset: bool,
}

/// The route of a predict request as the wire carries it.
#[derive(Debug, Clone, PartialEq, Eq)]
pub struct WirePredictContext {
    /// The session the request belongs to.
    pub session_id: String,
    /// The route the request belongs to.
    pub route_id: String,
    /// The request's id.
    pub request_id: String,
    /// The request's lanes.
    pub slots: Vec<WirePredictSlot>,
}

/// Whether native lane `native` is wire lane `wire` read in: the env index
/// clamped to `i32::MAX`, everything else as it is.
pub open spec fn slot_read(wire: WirePredictSlot, native: RouteSlot) -> bool {
    &&& native.episode_id@ == wire.episode_id@
    &&& native.env_index == (if wire.env_index <= i32::MAX {
        wire.env_index as i32
    } else {
        i32::MAX
    })
    &&& native.step == wire.step
    &&& native.reset == wire.reset
}

/// Whether wire lane `wire` is native lane `native` written out: a negative
/// env index as 0, everything else as it is.
pub open spec fn slot_written(native: RouteSlot, wire: WirePredictSlot) -> bool {
    &&& wire.episode_id@ == native.episode_id@
    &&& wire.env_index == (if native.env_index < 0 {
        0
    } else {
        native.env_index as u32
    })
    &&& wire.step == native.step
    &&& wire.reset == native.reset
}

/// Read a wire route in (see [`slot_read`]).
pub fn route_from_wire(value: WirePredictContext) -> (route: PredictRoute)
    ensures
        route.session_id@ == value.session_id@,
        route.route_id@ == value.route_id@,
        route.request_id@ == value.request_id@,
        route.slots@.len() == value.slots@.len(),
        forall|i: int| 0 <= i < value.slots@.len() ==> slot_read(value.slots@[i], #[trigger] route.slots@[i]),
{
    let mut slots: Vec<RouteSlot> = Vec::new();
    let mut i: usize = 0;
    while i < value.slots.len()
        invariant
            i <= value.slots@.len(),
            slots@.len() == i,
            forall|j: int| 0 <= j < i ==> slot_read(value.slots@[j], #[trigger] slots@[j]),
        decreases value.slots@.len() - i,
    {
        let slot = &value.slots[i];
        let env_index: i32 = if slot.env_index <= 2147483647u32 {
            slot.env_index as i32
        } else {
            2147483647i32
        };
        slots.push(RouteSlot { episode_id: slot.episode_id.clone(), env_index, step: slot.step, reset: slot.reset });
        i = i + 1;
    }
    PredictRoute { session_id: value.session_id, route_id: value.route_id, request_id: value.request_id, slots }
}

/// Write a route out for the wire (see [`slot_written`]).
pub fn route_to_wire(route: &PredictRoute) -> (value: WirePredictContext)
    ensures
        value.session_id@ == route.session_id@,
        value.route_id@ == route.route_id@,
        value.request_id@ == route.request_id@,
        value.slots@.len() == route.slots@.len(),
        forall|i: int| 0 <= i < route.slots@.len() ==> slot_written(route.slots@[i], #[trigger] value.slots@[i]),
{
    let mut slots: Vec<WirePredictSlot> = Vec::new();
    let mut i: usize = 0;
    while i < route.slots.len()
        invariant
            i <= route.slots@.len(),
            slots@.len() == i,
            forall|j: int| 0 <= j < i ==> slot_written(route.slots@[j], #[trigger] slots@[j]),
        decreases route.slots@.len() - i,
    {
        let slot = &route.slots[i];
        let env_index: u32 = if slot.env_index < 0 {
            0
        } else {
            slot.env_index as u32
        };
        slots.push(
            WirePredictSlot { episode_id: slot.episode_id.clone(), env_index, step: slot.step, reset: slot.reset },
        );
        i = i + 1;
    }
    WirePredictContext {
        session_id: route.session_id.clone(),
        route_id: route.route_id.clone(),
        request_id: route.request_id.clone(),
        slots,
    }
}

/// The route of a predict request: a request without one is refused.
pub fn route_from_request(context: Option<WirePredictContext>) -> (route: Result<PredictRoute, Error>)
    ensures
        context is None ==> (route matches Err(Error::Internal(message)) && message@
            == "model request missing route context"@),
        context matches Some(value) ==> (route matches Ok(r) && r.route_id@ == value.route_id@ && r.request_id@
            == value.request_id@ && r.session_id@ == value.session_id@ && r.slots@.len() == value.slots@.len()
            && forall|i: int| 0 <= i < value.slots@.len() ==> slot_read(value.slots@[i], #[trigger] r.slots@[i])),
{
    match context {
        Some(value) => Ok(route_from_wire(value)),
        None => {
            proof {
                reveal_strlit("model request missing route context");
            }
            Err(Error::Internal(String::from_str("model request missing route context")))
        },
    }
}

/// A lane written out and read back in is the lane it was, as long as its
/// env index is not negative; a lane read in and written back out is the lane
/// it was, as long as its env index fits `i32`.
pub proof fn slots_survive_the_wire(native: RouteSlot, wire: WirePredictSlot, back: RouteSlot, again: WirePredictSlot)
    ensures
        slot_written(native, wire) && slot_read(wire, back) && native.env_index >= 0 ==> back.episode_id@
            == native.episode_id@ && back.env_index == native.env_index && back.step == native.step && back.reset
            == native.reset,
        slot_read(wire, back) && slot_written(back, again) && wire.env_index <= i32::MAX ==> again.episode_id@
            == wire.episode_id@ && again.env_index == wire.env_index && again.step == wire.step && again.reset
            == wire.reset,
{
}

/// Whether the env indices of `slots` before `upto` are distinct.
pub open spec fn distinct_indices(slots: Seq<RouteSlot>, upto: int) -> bool {
    forall|a: int, b: int| 0 <= a < b < upto ==> (#[trigger] slots[a]).env_index != (#[trigger] slots[b]).env_index
}

/// The first problem with a predict route, if any: an empty route id, an
/// empty request id, no lanes, and then, lane by lane, a lane with no
/// episode id or an env index an earlier lane already has.
pub open spec fn route_problem(route: PredictRoute) -> Option<Seq<char>> {
    if route.route_id@.len() == 0 {
        Some("model route_id is empty"@)
    } else if route.request_id@.len() == 0 {
        Some("model request_id is empty"@)
    } else if route.slots@.len() == 0 {
        Some("model route must include at least one slot"@)
    } else {
        slot_problem(route.slots@, route.slots@.len() as int)
    }
}

/// The first lane problem among the first `upto` lanes, if any.
pub open spec fn slot_problem(slots: Seq<RouteSlot>, upto: int) -> Option<Seq<char>>
    decreases upto,
{
    if upto <= 0 {
        None
    } else {
        let earlier = slot_problem(slots, upto - 1);
        if earlier is Some {
            earlier
        } else if slots[upto - 1].episode_id@.len() == 0 {
            Some("model route slot "@ + decimal((upto - 1) as nat) + " missing episode_id"@)
        } else if exists|a: int| 0 <= a < upto - 1 && (#[trigger] slots[a]).env_index == slots[upto - 1].env_index {
            Some("model route has duplicate env_index "@ + decimal_int(slots[upto - 1].env_index as int))
        } else {
            None
        }
    }
}

proof fn lemma_no_problem_distinct(slots: Seq<RouteSlot>, upto: int)
    requires
        0 <= upto <= slots.len(),
        slot_problem(slots, upto) is None,
    ensures
        distinct_indices(slots, upto),
    decreases upto,
{
    if upto > 0 {
        lemma_no_problem_distinct(slots, upto - 1);
    }
}

/// Validate a predict's route: it names its route and request, has a lane,
/// and every lane carries an episode id and an env index of its own.
pub fn validate_predict_route(route: &PredictRoute) -> (checked: Result<(), Error>)
    ensures
        match route_problem(*route) {
            None => checked is Ok,
            Some(problem) => checked matches Err(Error::Internal(message)) && message@ == problem,
        },
        checked is Ok ==> distinct_indices(route.slots@, route.slots@.len() as int),
{
    if route.route_id.as_str().is_empty() {
        let message = String::from_str("model route_id is empty");
        proof {
            reveal_strlit("model route_id is empty");
        }
        return Err(Error::Internal(message));
    }
    if route.request_id.as_str().is_empty() {
        let message = String::from_str("model request_id is empty");
        proof {
            reveal_strlit("model request_id is empty");
        }
        return Err(Error::Internal(message));
    }
    if route.slots.len() == 0 {
        let message = String::from_str("model route must include at least one slot");
        proof {
            reveal_strlit("model route must include at least one slot");
        }
        return Err(Error::Internal(message));
    }
    let ghost slots = route.slots@;
    let mut index: usize = 0;
    while index < route.slots.len()
        invariant
            slots == route.slots@,
            route.route_id@.len() > 0,
            route.request_id@.len() > 0,
            slots.len() > 0,
            index <= slots.len(),
            slot_problem(slots, index as int) is None,
        decreases slots.len() - index,
    {
        let slot = &route.slots[index];
        if slot.episode_id.as_str().is_empty() {
            let mut message = String::from_str("model route slot ");
            message.append(number_text(index as u64).as_str());
            message.append(" missing episode_id");
            proof {
                lemma_problem_stays(slots, index + 1, slots.len() as int);
            }
            return Err(Error::Internal(message));
        }
        let mut earlier: usize = 0;
        while earlier < index
            invariant
                slots == route.slots@,
                *slot == slots[index as int],
                index < slots.len(),
                route.route_id@.len() > 0,
                route.request_id@.len() > 0,
                slot_problem(slots, index as int) is None,
                slots[index as int].episode_id@.len() > 0,
                earlier <= index,
                forall|a: int| 0 <= a < earlier ==> (#[trigger] slots[a]).env_index != slots[index as int].env_index,
            decreases index - earlier,
        {
            if route.slots[earlier].env_index == slot.env_index {
                let mut message = String::from_str("model route has duplicate env_index ");
                message.append(int_text(slot.env_index as i64).as_str());
                proof {
                    assert(slots[earlier as int].env_index == slots[index as int].env_index);
                    assert(exists|a: int| 0 <= a < index && (#[trigger] slots[a]).env_index == slots[index as int].env_index);
                    lemma_problem_stays(slots, index + 1, slots.len() as int);
                }
                return Err(Error::Internal(message));
            }
            earlier = earlier + 1;
        }
        index = index + 1;
    }
    proof {
        lemma_no_problem_distinct(slots, slots.len() as int);
    }
    Ok(())
}

proof fn lemma_problem_stays(slots: Seq<RouteSlot>, from: int, to: int)
    requires
        0 <= from <= to,
        slot_problem(slots, from) is Some,
    ensures
        slot_problem(slots, to) == slot_problem(slots, from),
    decreases to - from,
{
    if to > from {
        lemma_problem_stays(slots, from, to - 1);
    }
}

} // verus!
