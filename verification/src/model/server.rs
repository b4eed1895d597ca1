//! The served model's request decisions: the route key a Join request is
//! sequenced on and the barrier it waits behind, the checks a resolve-adapter
//! request passes, how a grouped predict's per-group outcomes line up with
//! its prepared groups, and the answer to a remote shutdown.

use vstd::prelude::*;

use crate::error::Error;
use crate::model::route_tails::{
    distinct_keys, first_seen, grouped_route_keys, prior_tails, reaped, tail_of, take_over, RequestGate, RouteTails,
};
use crate::model::types::ModelRouteContext;
use crate::text::{decimal, number_text};

verus! {

/// The route key of an adapter context's env id: the env id itself (a
/// globally unique UUIDv7), or none when it is empty.
pub fn route_config_key(env_id: &str) -> (key: Option<String>)
    ensures
        env_id@.len() == 0 ==> key is None,
        env_id@.len() > 0 ==> (key matches Some(k) && k@ == env_id@),
{
    if env_id.is_empty() {
        None
    } else {
        Some(env_id.to_owned())
    }
}

/// The route key of a predict's route: its env id.
pub fn model_route_config_key(route: &ModelRouteContext) -> (key: String)
    ensures
        key@ == route.env_id@,
{
    route.env_id.clone()
}

/// The kind of a Join request, with the env id of its adapter context where
/// it has one (none when the context is missing).
#[derive(Debug, Clone, PartialEq, Eq)]
pub enum JoinKind {
    /// Resolve a route's adapter.
    ResolveAdapter(Option<String>),
    /// Predict on one route.
    Predict(Option<String>),
    /// Evict episodes of a route.
    ResetAdapter(Option<String>),
    /// Release a route's adapter.
    ReleaseAdapter(Option<String>),
    /// Close the whole session.
    Close,
    /// Predict on several routes at once; the env id of each group.
    GroupedPredict(Vec<Option<String>>),
    /// A request that names no kind.
    Empty,
}

/// The route key a request is sequenced on: its context's route key for a
/// single-route request; none for a close, a grouped predict, or a missing
/// or empty env id.
pub open spec fn spec_request_route_key(kind: JoinKind) -> Option<Seq<char>> {
    match kind {
        JoinKind::ResolveAdapter(Some(env_id)) | JoinKind::Predict(Some(env_id)) | JoinKind::ResetAdapter(
            Some(env_id),
        ) | JoinKind::ReleaseAdapter(Some(env_id)) => if env_id@.len() > 0 {
            Some(env_id@)
        } else {
            None
        },
        _ => None,
    }
}

/// The route key a request is sequenced on (see [`spec_request_route_key`]).
pub fn join_request_route_key(kind: &JoinKind) -> (key: Option<String>)
    ensures
        match spec_request_route_key(*kind) {
            Some(k) => key matches Some(s) && s@ == k,
            None => key is None,
        },
{
    let env_id = match kind {
        JoinKind::ResolveAdapter(env_id) => env_id,
        JoinKind::Predict(env_id) => env_id,
        JoinKind::ResetAdapter(env_id) => env_id,
        JoinKind::ReleaseAdapter(env_id) => env_id,
        JoinKind::Close => return None,
        JoinKind::GroupedPredict(_) => return None,
        JoinKind::Empty => return None,
    };
    match env_id {
        Some(env_id) => route_config_key(env_id.as_str()),
        None => None,
    }
}

/// The env ids of a grouped predict's groups as route keys: a group whose env
/// id is missing or empty has none.
fn group_route_keys(env_ids: &Vec<Option<String>>) -> (keys: Vec<Option<String>>)
    ensures
        keys@.len() == env_ids@.len(),
        forall|g: int|
            0 <= g < env_ids@.len() ==> match env_ids@[g] {
                Some(env_id) if env_id@.len() > 0 => (#[trigger] keys@[g]) matches Some(k) && k@ == env_id@,
                _ => keys@[g] is None,
            },
{
    let mut keys: Vec<Option<String>> = Vec::new();
    let mut g: usize = 0;
    while g < env_ids.len()
        invariant
            g <= env_ids@.len(),
            keys@.len() == g,
            forall|h: int|
                0 <= h < g ==> match env_ids@[h] {
                    Some(env_id) if env_id@.len() > 0 => (#[trigger] keys@[h]) matches Some(k) && k@ == env_id@,
                    _ => keys@[h] is None,
                },
        decreases env_ids@.len() - g,
    {
        let key = match &env_ids[g] {
            Some(env_id) => route_config_key(env_id.as_str()),
            None => None,
        };
        keys.push(key);
        g = g + 1;
    }
    keys
}

/// The distinct non-empty env ids among a grouped predict's groups, in
/// first-seen order: the routes it references.
pub open spec fn referenced_routes(env_ids: Seq<Option<String>>) -> Seq<Seq<char>>
    decreases env_ids.len(),
{
    if env_ids.len() == 0 {
        Seq::empty()
    } else {
        let before = referenced_routes(env_ids.drop_last());
        match env_ids.last() {
            Some(env_id) => if env_id@.len() == 0 || before.contains(env_id@) {
                before
            } else {
                before.push(env_id@)
            },
            None => before,
        }
    }
}

/// The route keys of the groups, first-seen and deduplicated, are the
/// referenced routes of their env ids.
proof fn lemma_first_seen_is_referenced(keys: Seq<Option<String>>, env_ids: Seq<Option<String>>)
    requires
        keys.len() == env_ids.len(),
        forall|g: int|
            0 <= g < env_ids.len() ==> match env_ids[g] {
                Some(env_id) if env_id@.len() > 0 => (#[trigger] keys[g]) matches Some(k) && k@ == env_id@,
                _ => keys[g] is None,
            },
    ensures
        first_seen(keys) == referenced_routes(env_ids),
    decreases keys.len(),
{
    if keys.len() > 0 {
        let n = keys.len() - 1;
        assert(keys[n] == keys.last());
        assert forall|g: int| 0 <= g < env_ids.drop_last().len() implies match env_ids.drop_last()[g] {
            Some(env_id) if env_id@.len() > 0 => (#[trigger] keys.drop_last()[g]) matches Some(k) && k@
                == env_id@,
            _ => keys.drop_last()[g] is None,
        } by {
            assert(keys.drop_last()[g] == keys[g]);
            assert(env_ids.drop_last()[g] == env_ids[g]);
        }
        lemma_first_seen_is_referenced(keys.drop_last(), env_ids.drop_last());
    }
}

/// The deduplicated route keys a grouped predict references, in first-seen
/// order; none for any other request kind.
pub fn grouped_predict_route_keys(kind: &JoinKind) -> (keys: Option<Vec<String>>)
    ensures
        kind is GroupedPredict <==> keys is Some,
        keys matches Some(k) ==> distinct_keys(k@) && k@.map_values(|key: String| key@)
            == referenced_routes(kind->GroupedPredict_0@),
{
    match kind {
        JoinKind::GroupedPredict(env_ids) => {
            let group_keys = group_route_keys(env_ids);
            proof {
                lemma_first_seen_is_referenced(group_keys@, env_ids@);
            }
            Some(grouped_route_keys(&group_keys))
        },
        _ => None,
    }
}

/// The barrier a Join request waits behind before it enters the handler, and the
/// tickets it releases when it completes: a close waits for every route; a
/// grouped predict for each route it references; any other request for its
/// own route (a request with no route key is not gated).
pub fn gate_request(tails: &mut RouteTails, kind: &JoinKind, completed: &Vec<u64>) -> (gated: (RequestGate, Vec<u64>))
    requires
        old(tails).wf(),
        old(tails).next_ticket() + (match kind {
            JoinKind::GroupedPredict(env_ids) => env_ids@.len(),
            _ => 1,
        }) <= u64::MAX,
    ensures
        final(tails).wf(),
        kind is Close ==> {
            &&& gated.0 is All
            &&& gated.0->All_0@.len() == old(tails).tails().len()
            &&& forall|key: Seq<char>| #[trigger] old(tails).tails().contains_key(key)
                ==> gated.0->All_0@.contains(old(tails).tails()[key])
            &&& forall|i: int| 0 <= i < gated.0->All_0@.len()
                ==> old(tails).tails().contains_value(#[trigger] gated.0->All_0@[i])
            &&& final(tails).tails() == Map::<Seq<char>, u64>::empty()
            &&& final(tails).next_ticket() == old(tails).next_ticket()
            &&& gated.1@.len() == 0
        },
        kind matches JoinKind::GroupedPredict(env_ids) ==> {
            let routes = referenced_routes(env_ids@);
            &&& gated.0 is All
            &&& gated.0->All_0@ == prior_tails(old(tails).tails(), routes)
            &&& final(tails).tails() == reaped(
                take_over(old(tails).tails(), routes, old(tails).next_ticket()),
                completed@,
            )
            &&& final(tails).next_ticket() == old(tails).next_ticket() + routes.len()
            &&& gated.1@.len() == routes.len()
            &&& forall|i: int| 0 <= i < routes.len() ==> #[trigger] gated.1@[i] == old(tails).next_ticket() + i
        },
        !(kind is Close) && !(kind is GroupedPredict) ==> {
            &&& final(tails).next_ticket() == old(tails).next_ticket() + 1
            &&& gated.1@ == seq![old(tails).next_ticket()]
            &&& match spec_request_route_key(*kind) {
                Some(key) => {
                    &&& gated.0 == RequestGate::Prev(tail_of(old(tails).tails(), key))
                    &&& final(tails).tails() == reaped(
                        old(tails).tails().insert(key, old(tails).next_ticket()),
                        completed@,
                    )
                },
                None => {
                    &&& gated.0 == RequestGate::Prev(None)
                    &&& final(tails).tails() == reaped(old(tails).tails(), completed@)
                },
            }
        },
{
    match kind {
        JoinKind::Close => tails.close_all_gate(),
        JoinKind::GroupedPredict(env_ids) => {
            let group_keys = group_route_keys(env_ids);
            let keys = grouped_route_keys(&group_keys);
            proof {
                lemma_first_seen_len(group_keys@);
                lemma_first_seen_is_referenced(group_keys@, env_ids@);
            }
            tails.next_multi_keyed_gate(&keys, completed)
        },
        _ => {
            let key = join_request_route_key(kind);
            match key {
                Some(key) => tails.next_keyed_gate(Some(key.as_str()), completed),
                None => tails.next_keyed_gate(None, completed),
            }
        },
    }
}

proof fn lemma_first_seen_len(group_keys: Seq<Option<String>>)
    ensures
        first_seen(group_keys).len() <= group_keys.len(),
    decreases group_keys.len(),
{
    if group_keys.len() > 0 {
        lemma_first_seen_len(group_keys.drop_last());
    }
}

/// What the served model does with one Join request once its gate opened.
#[derive(Debug, Clone, PartialEq, Eq)]
pub enum RequestStep {
    /// Resolve the route's adapter (see [`check_resolve_request`]).
    ResolveAdapter,
    /// Predict on one route.
    Predict,
    /// Predict on several routes at once.
    GroupedPredict,
    /// Evict episodes of the env with this id from the handler's adapter state.
    ResetAdapter(String),
    /// Drop the config of the route with this key and release its adapter.
    ReleaseAdapter(String),
    /// Release every route's adapter and drop every config.
    CloseSession,
    /// Answer with a model error carrying this message.
    Refuse(String),
}

/// The step a Join request takes: the evict and release requests need a
/// non-empty env id, and a request with no kind is refused.
pub fn plan_request(kind: &JoinKind) -> (step: RequestStep)
    ensures
        kind is ResolveAdapter ==> step is ResolveAdapter,
        kind is Predict ==> step is Predict,
        kind is GroupedPredict ==> step is GroupedPredict,
        kind is Close ==> step is CloseSession,
        kind is Empty ==> (step matches RequestStep::Refuse(message) && message@ == "empty model request"@),
        kind matches JoinKind::ResetAdapter(env_id) ==> match spec_request_route_key(*kind) {
            Some(id) => step matches RequestStep::ResetAdapter(e) && e@ == id,
            None => step matches RequestStep::Refuse(message) && message@ == "reset_adapter missing env_id"@,
        },
        kind matches JoinKind::ReleaseAdapter(env_id) ==> match spec_request_route_key(*kind) {
            Some(key) => step matches RequestStep::ReleaseAdapter(k) && k@ == key,
            None => step matches RequestStep::Refuse(message) && message@ == "release_adapter missing env_id"@,
        },
{
    proof {
        reveal_strlit("empty model request");
        reveal_strlit("reset_adapter missing env_id");
        reveal_strlit("release_adapter missing env_id");
    }
    match kind {
        JoinKind::ResolveAdapter(_) => RequestStep::ResolveAdapter,
        JoinKind::Predict(_) => RequestStep::Predict,
        JoinKind::GroupedPredict(_) => RequestStep::GroupedPredict,
        JoinKind::Close => RequestStep::CloseSession,
        JoinKind::ResetAdapter(_) => match join_request_route_key(kind) {
            Some(env_id) => RequestStep::ResetAdapter(env_id),
            None => RequestStep::Refuse(String::from_str("reset_adapter missing env_id")),
        },
        JoinKind::ReleaseAdapter(_) => match join_request_route_key(kind) {
            Some(key) => RequestStep::ReleaseAdapter(key),
            None => RequestStep::Refuse(String::from_str("release_adapter missing env_id")),
        },
        JoinKind::Empty => RequestStep::Refuse(String::from_str("empty model request")),
    }
}

/// The reply to a remote shutdown request.
#[derive(Debug, Clone, PartialEq, Eq)]
pub struct ShutdownReply {
    /// Whether the server shuts down.
    pub accepted: bool,
    /// The message sent back.
    pub message: String,
    /// The reason the shutdown is triggered with, when accepted.
    pub reason: Option<String>,
}

/// Answer a remote shutdown: declined unless remote shutdown is allowed;
/// otherwise accepted, triggered with the request's reason (or `remote
/// shutdown` when it gives none), and acknowledged with that reason.
pub fn shutdown_reply(allow_remote_shutdown: bool, reason: &str) -> (reply: ShutdownReply)
    ensures
        !allow_remote_shutdown ==> !reply.accepted && reply.reason is None && reply.message@
            == "remote shutdown is disabled for this model endpoint"@,
        allow_remote_shutdown && reason@.len() == 0 ==> (reply.accepted && reply.message@ == "shutdown accepted"@
            && (reply.reason matches Some(r) && r@ == "remote shutdown"@)),
        allow_remote_shutdown && reason@.len() > 0 ==> (reply.accepted && reply.message@ == "shutdown accepted: "@
            + reason@ && (reply.reason matches Some(r) && r@ == reason@)),
{
    proof {
        reveal_strlit("remote shutdown is disabled for this model endpoint");
        reveal_strlit("shutdown accepted");
        reveal_strlit("remote shutdown");
        reveal_strlit("shutdown accepted: ");
    }
    if !allow_remote_shutdown {
        return ShutdownReply {
            accepted: false,
            message: String::from_str("remote shutdown is disabled for this model endpoint"),
            reason: None,
        };
    }
    if reason.is_empty() {
        ShutdownReply {
            accepted: true,
            message: String::from_str("shutdown accepted"),
            reason: Some(String::from_str("remote shutdown")),
        }
    } else {
        let mut message = String::from_str("shutdown accepted: ");
        message.append(reason);
        ShutdownReply { accepted: true, message, reason: Some(reason.to_owned()) }
    }
}

/// The `Debug` rendering of a string: quoted, with escapes.
pub uninterp spec fn debug_quoted(text: Seq<char>) -> Seq<char>;

/// Render `text` with its `Debug` format (`<str as Debug>::fmt`).
#[verifier::external_body]
fn debug_text(text: &str) -> (rendered: String)
    ensures
        rendered@ == debug_quoted(text@),
{
    format!("{:?}", text)
}

/// The `Debug` rendering of a list of strings: `[` the quoted items joined by
/// `, ` `]`.
pub open spec fn debug_list(items: Seq<Seq<char>>) -> Seq<char> {
    "["@ + joined_quoted(items) + "]"@
}

/// The quoted items joined by `, `.
pub open spec fn joined_quoted(items: Seq<Seq<char>>) -> Seq<char>
    decreases items.len(),
{
    if items.len() == 0 {
        Seq::empty()
    } else if items.len() == 1 {
        debug_quoted(items[0])
    } else {
        joined_quoted(items.drop_last()) + ", "@ + debug_quoted(items.last())
    }
}

/// The message of a route pinned to an edition this build does not implement.
pub open spec fn unsupported_edition_text(edition: Seq<char>, supported: Seq<Seq<char>>) -> Seq<char> {
    "runtime pinned this route to workflow edition "@ + debug_quoted(edition)
        + ", which this model build does not implement (implements "@ + debug_list(supported) + ")"@
}

/// Whether `edition` is one of `supported`.
pub open spec fn is_supported(edition: Seq<char>, supported: Seq<String>) -> bool {
    exists|i: int| 0 <= i < supported.len() && (#[trigger] supported[i])@ == edition
}

/// Honor the runtime-pinned route edition: an edition outside this build's
/// support window is a configuration error (membership, not equality with
/// the newest: the floor may land on a supported older edition).
pub fn enforce_route_floor(edition: &str, supported: &Vec<String>) -> (checked: Result<(), String>)
    ensures
        is_supported(edition@, supported@) ==> checked is Ok,
        !is_supported(edition@, supported@) ==> (checked matches Err(message) && message@
            == unsupported_edition_text(edition@, supported@.map_values(|s: String| s@))),
{
    let mut i: usize = 0;
    while i < supported.len()
        invariant
            i <= supported@.len(),
            forall|j: int| 0 <= j < i ==> (#[trigger] supported@[j])@ != edition@,
        decreases supported@.len() - i,
    {
        if crate::text::same_text(supported[i].as_str(), edition) {
            return Ok(());
        }
        i = i + 1;
    }
    let ghost views = supported@.map_values(|s: String| s@);
    let mut list = String::from_str("[");
    let mut k: usize = 0;
    while k < supported.len()
        invariant
            views == supported@.map_values(|s: String| s@),
            k <= supported@.len(),
            list@ == "["@ + joined_quoted(views.take(k as int)),
        decreases supported@.len() - k,
    {
        proof {
            assert(views.take(k + 1).drop_last() =~= views.take(k as int));
            assert(views.take(k + 1).last() == supported@[k as int]@);
        }
        if k > 0 {
            list.append(", ");
        }
        let quoted = debug_text(supported[k].as_str());
        list.append(quoted.as_str());
        k = k + 1;
        proof {
            if k == 1 {
                assert(views.take(0) =~= Seq::<Seq<char>>::empty());
            }
            assert(list@ =~= "["@ + joined_quoted(views.take(k as int)));
        }
    }
    list.append("]");
    assert(views.take(supported@.len() as int) =~= views);
    let mut message = String::from_str("runtime pinned this route to workflow edition ");
    let quoted = debug_text(edition);
    message.append(quoted.as_str());
    message.append(", which this model build does not implement (implements ");
    message.append(list.as_str());
    message.append(")");
    proof {
        reveal_strlit("[");
        reveal_strlit("]");
        assert(message@ =~= unsupported_edition_text(edition@, views));
    }
    Err(message)
}

/// What a resolve-adapter request carries that the checks read.
#[derive(Debug, Clone, PartialEq, Eq)]
pub struct ResolveRequest {
    /// The env id of its adapter context; none when the context is missing.
    pub env_id: Option<String>,
    /// Whether it carries the env's spec.
    pub has_env_spec: bool,
    /// The workflow edition the runtime pinned; empty when none.
    pub selected_workflow_edition: String,
}

/// The first check a resolve-adapter request fails, if any: a missing
/// context, an empty env id, a missing env spec, then the edition pin (an
/// empty pin is refused once more than one edition is supported; a pinned
/// edition must be supported).
pub open spec fn resolve_problem(request: ResolveRequest, supported: Seq<String>) -> Option<Seq<char>> {
    match request.env_id {
        None => Some("resolve_adapter missing adapter context"@),
        Some(env_id) => if env_id@.len() == 0 {
            Some("resolve_adapter env_id is empty"@)
        } else if !request.has_env_spec {
            Some("resolve_adapter missing env_spec"@)
        } else if request.selected_workflow_edition@.len() == 0 {
            if supported.len() > 1 {
                Some(unpinned_edition_text())
            } else {
                None
            }
        } else if !is_supported(request.selected_workflow_edition@, supported) {
            Some(
                unsupported_edition_text(
                    request.selected_workflow_edition@,
                    supported.map_values(|s: String| s@),
                ),
            )
        } else {
            None
        },
    }
}

/// The message of a resolve without an edition pin once several editions are
/// supported.
pub open spec fn unpinned_edition_text() -> Seq<char> {
    "resolve_adapter arrived without a workflow edition pin; the runtime must select the session floor once more than one edition is supported"@
}

/// Check a resolve-adapter request (see [`resolve_problem`]); on success,
/// the route key to store the adapter under and the pinned edition, if any.
pub fn check_resolve_request(request: &ResolveRequest, supported: &Vec<String>) -> (checked: Result<
    (String, Option<String>),
    String,
>)
    ensures
        match resolve_problem(*request, supported@) {
            Some(problem) => checked matches Err(message) && message@ == problem,
            None => checked matches Ok((key, floor)) && request.env_id matches Some(env_id) && key@ == env_id@
                && if request.selected_workflow_edition@.len() == 0 {
                floor is None
            } else {
                floor matches Some(f) && f@ == request.selected_workflow_edition@
            },
        },
{
    proof {
        reveal_strlit("resolve_adapter missing adapter context");
        reveal_strlit("resolve_adapter env_id is empty");
        reveal_strlit("resolve_adapter missing env_spec");
        reveal_strlit(
            "resolve_adapter arrived without a workflow edition pin; the runtime must select the session floor once more than one edition is supported",
        );
    }
    let env_id = match &request.env_id {
        None => return Err(String::from_str("resolve_adapter missing adapter context")),
        Some(env_id) => env_id,
    };
    if env_id.as_str().is_empty() {
        return Err(String::from_str("resolve_adapter env_id is empty"));
    }
    let key = match route_config_key(env_id.as_str()) {
        Some(key) => key,
        None => return Err(String::from_str("resolve_adapter missing env_id")),
    };
    if !request.has_env_spec {
        return Err(String::from_str("resolve_adapter missing env_spec"));
    }
    if request.selected_workflow_edition.as_str().is_empty() {
        if supported.len() > 1 {
            return Err(
                String::from_str(
                    "resolve_adapter arrived without a workflow edition pin; the runtime must select the session floor once more than one edition is supported",
                ),
            );
        }
        return Ok((key, None));
    }
    match enforce_route_floor(request.selected_workflow_edition.as_str(), supported) {
        Ok(()) => Ok((key, Some(request.selected_workflow_edition.clone()))),
        Err(message) => Err(message),
    }
}

/// A resolved env spec must carry an action space: every predict on the route
/// encodes its actions against it.
pub fn check_action_space(has_action_space: bool) -> (checked: Result<(), String>)
    ensures
        has_action_space ==> checked is Ok,
        !has_action_space ==> (checked matches Err(message) && message@
            == "env EnvSpec has no action_space; a model worker cannot encode actions without it"@),
{
    if has_action_space {
        Ok(())
    } else {
        let message = String::from_str(
            "env EnvSpec has no action_space; a model worker cannot encode actions without it",
        );
        proof {
            reveal_strlit("env EnvSpec has no action_space; a model worker cannot encode actions without it");
        }
        Err(message)
    }
}

/// The message of a predict answering the wrong number of lanes.
pub open spec fn predict_count_text(actions: nat, lanes: nat) -> Seq<char> {
    "predict returned "@ + decimal(actions) + " actions for "@ + decimal(lanes) + " lanes"@
}

/// A predict answers exactly one action per lane.
pub fn check_predict_count(actions: usize, num_envs: usize) -> (checked: Result<(), Error>)
    ensures
        actions == num_envs ==> checked is Ok,
        actions != num_envs ==> (checked matches Err(Error::Model(model)) && !model.is_recoverable
            && model.message@ == predict_count_text(actions as nat, num_envs as nat)),
{
    if actions == num_envs {
        return Ok(());
    }
    let mut message = String::from_str("predict returned ");
    message.append(number_text(actions as u64).as_str());
    message.append(" actions for ");
    message.append(number_text(num_envs as u64).as_str());
    message.append(" lanes");
    Err(Error::model(message))
}

/// The message the served endpoint gives a prepared group a grouped predict
/// left unanswered.
pub const SHORT_GROUPED_MESSAGE: &'static str = "predict_grouped returned fewer action sets than prepared groups";

/// The number of prepared groups among the first `upto` finishers.
pub open spec fn prepared_before<F>(finishers: Seq<Result<F, Error>>, upto: int) -> int
    decreases upto,
{
    if upto <= 0 {
        0
    } else {
        prepared_before(finishers, upto - 1) + if finishers[upto - 1] is Ok {
            1int
        } else {
            0int
        }
    }
}

/// Whether `paired` lines the outcomes up with the groups: a group that
/// failed to prepare keeps its failure; the `k`-th prepared group takes the
/// `k`-th outcome, and a prepared group past the outcomes fails with
/// `shortfall`.
pub open spec fn is_pairing<F, T>(
    paired: Seq<Result<(F, T), Error>>,
    finishers: Seq<Result<F, Error>>,
    outcomes: Seq<Result<T, Error>>,
    shortfall: Seq<char>,
) -> bool {
    &&& paired.len() == finishers.len()
    &&& forall|g: int|
        0 <= g < finishers.len() ==> match finishers[g] {
            Err(error) => (#[trigger] paired[g]) == Err::<(F, T), Error>(error),
            Ok(finisher) => {
                let k = prepared_before(finishers, g);
                if k < outcomes.len() {
                    match outcomes[k] {
                        Ok(value) => paired[g] == Ok::<(F, T), Error>((finisher, value)),
                        Err(error) => paired[g] == Err::<(F, T), Error>(error),
                    }
                } else {
                    paired[g] matches Err(Error::Model(model)) && !model.is_recoverable && model.message@
                        == shortfall
                }
            },
        }
}

/// Line a grouped predict's outcomes up with its groups (see [`is_pairing`]).
pub fn pair_grouped_outcomes<F, T>(
    finishers: Vec<Result<F, Error>>,
    outcomes: Vec<Result<T, Error>>,
    shortfall: &str,
) -> (paired: Vec<Result<(F, T), Error>>)
    ensures
        is_pairing(paired@, finishers@, outcomes@, shortfall@),
{
    let ghost all_finishers = finishers@;
    let ghost all_outcomes = outcomes@;
    let count = finishers.len();
    let mut rest = finishers;
    let mut pending = outcomes;
    let mut taken: usize = 0;
    let mut paired: Vec<Result<(F, T), Error>> = Vec::new();
    let mut g: usize = 0;
    while rest.len() > 0
        invariant
            count == all_finishers.len(),
            g + rest@.len() == count,
            rest@ == all_finishers.skip(g as int),
            taken == prepared_before(all_finishers, g as int),
            taken <= g,
            pending@ == if taken <= all_outcomes.len() {
                all_outcomes.skip(taken as int)
            } else {
                Seq::<Result<T, Error>>::empty()
            },
            paired@.len() == g,
            forall|h: int|
                0 <= h < g ==> match all_finishers[h] {
                    Err(error) => (#[trigger] paired@[h]) == Err::<(F, T), Error>(error),
                    Ok(finisher) => {
                        let k = prepared_before(all_finishers, h);
                        if k < all_outcomes.len() {
                            match all_outcomes[k] {
                                Ok(value) => paired@[h] == Ok::<(F, T), Error>((finisher, value)),
                                Err(error) => paired@[h] == Err::<(F, T), Error>(error),
                            }
                        } else {
                            paired@[h] matches Err(Error::Model(model)) && !model.is_recoverable
                                && model.message@ == shortfall@
                        }
                    },
                },
        decreases rest@.len(),
    {
        let finisher = rest.remove(0);
        assert(finisher == all_finishers[g as int]);
        match finisher {
            Err(error) => {
                paired.push(Err(error));
            },
            Ok(finisher) => {
                if pending.len() > 0 {
                    let outcome = pending.remove(0);
                    assert(outcome == all_outcomes[taken as int]);
                    match outcome {
                        Ok(value) => paired.push(Ok((finisher, value))),
                        Err(error) => paired.push(Err(error)),
                    }
                } else {
                    paired.push(Err(Error::model(shortfall.to_owned())));
                }
                taken = taken + 1;
            },
        }
        g = g + 1;
        assert(rest@ =~= all_finishers.skip(g as int));
        assert(pending@ =~= if taken <= all_outcomes.len() {
            all_outcomes.skip(taken as int)
        } else {
            Seq::<Result<T, Error>>::empty()
        });
    }
    paired
}

} // verus!
