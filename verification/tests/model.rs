use rlmesh::model::lifecycle::{ActiveEpisodes, ModelEpisodeEnd};
use rlmesh::model::remote::{new_session_id, single_lane_contract, RemoteSession};
use rlmesh::model::route_tails::{RequestGate, RouteTails};
use rlmesh::model::server::{
    check_predict_count, check_resolve_request, enforce_route_floor, gate_request, grouped_predict_route_keys,
    join_request_route_key, pair_grouped_outcomes, shutdown_reply, JoinKind, ResolveRequest,
    SHORT_GROUPED_MESSAGE,
};
use rlmesh::model::local::{
    check_local_action_space, check_lockstep_chunking, held_episodes_count, model_rpc, pair_local_results,
    request_lane_count, run_error, finish_local_results, RuntimeFailure, SHORT_LOCAL_MESSAGE,
};
use rlmesh::transport::{TransportError, TransportFailure};
use rlmesh::model::route_configs::{RouteConfig, RouteConfigs};
use rlmesh::model::server::{plan_request, RequestStep};
use rlmesh::spaces::{SpaceKind, SpaceSpec};
use rlmesh::model::wire::{
    check_actions_conform, model_error_value, saturating_nanos, validate_predict_route, ModelErrorCode,
    PredictRoute, RouteSlot,
};
use rlmesh::model::wire::{route_from_request, route_from_wire, route_to_wire, WirePredictContext, WirePredictSlot};
use rlmesh::spaces::EnvContract;
use rlmesh::model::types::{decoded_lanes, decoded_single};
use rlmesh::PredictFrames;
use rlmesh::{Error, ModelRouteContext};

fn single_lane_test_contract(num_envs: u32) -> EnvContract {
    EnvContract {
        id: "remote-model-test".to_string(),
        autoreset_mode: Default::default(),
        observation_space: None,
        action_space: None,
        metadata: None,
        render_mode: String::new(),
        num_envs,
    }
}

#[test]
fn single_lane_contract_rejects_vector_env() {
    let err = single_lane_contract(single_lane_test_contract(4)).expect_err("num_envs > 1 must be rejected");
    assert!(err.to_text().contains("num_envs=4"), "{err:?}");
}

#[test]
fn single_lane_contract_clamps_zero_and_accepts_one() {
    assert_eq!(single_lane_contract(single_lane_test_contract(0)).unwrap().num_envs, 1);
    assert_eq!(single_lane_contract(single_lane_test_contract(1)).unwrap().num_envs, 1);
}

#[test]
fn session_ids_are_unique_and_globally_namespaced() {
    let first = new_session_id();
    let second = new_session_id();
    assert_ne!(first, second);
    assert!(first.starts_with("remote-model-"), "{first}");
    assert!(second.starts_with("remote-model-"), "{second}");
}

#[test]
fn remote_model_predict_requires_reset() {
    let mut session: RemoteSession<u32, ()> = RemoteSession::new();
    assert_eq!(session.plan_predict().unwrap_err(), Error::Internal("call reset() before predict()".to_string()));
}

#[test]
fn chunk_frames_replay_in_order_and_reset_drops_the_tail() {
    let mut session: RemoteSession<u32, &str> = RemoteSession::new();
    session.begin_episode("ep-1".to_string(), Some(9));
    let plan = session.plan_predict().unwrap();
    assert!(plan.call_model);
    assert_eq!(plan.step, 0);
    session.accept_frames(vec![10, 11, 12]).unwrap();
    assert_eq!(session.next_action(), 10);
    session.history_on = true;
    let plan = session.plan_predict().unwrap();
    assert!(!plan.call_model);
    assert!(plan.record_history);
    assert_eq!(session.next_action(), 11);
    session.record_history("row");
    session.begin_episode("ep-2".to_string(), None);
    assert!(session.replay.is_empty(), "a new episode re-plans from its first observation");
    assert!(session.history.is_empty());
    assert_eq!(session.pending_end, vec!["ep-1".to_string()]);
    let (id, ended) = session.take_pending_end("env").unwrap();
    assert_eq!(id, "env:reset_adapter:1");
    assert_eq!(ended, vec!["ep-1".to_string()]);
    assert!(session.take_pending_end("env").is_none());
    assert_eq!(session.next_request_id("env"), "env:predict:2");
    assert_eq!(
        session.accept_frames(vec![]).unwrap_err(),
        Error::Internal("predict returned no actions for a single-env route".to_string())
    );
    session.end_last_episode();
    assert_eq!(session.pending_end, vec!["ep-2".to_string()]);
}

#[test]
fn route_tails_reaps_closed_routes_so_the_map_stays_bounded() {
    let mut tails = RouteTails::new();
    let mut completed: Vec<u64> = Vec::new();
    for episode in 0..1_000 {
        let key = format!("session:{episode}");
        let (gate, configure_done) = tails.next_keyed_gate(Some(&key), &completed);
        assert_eq!(gate, RequestGate::Prev(None));
        let (gate, predict_done) = tails.next_keyed_gate(Some(&key), &completed);
        assert!(matches!(gate, RequestGate::Prev(Some(_))));
        let (gate, close_done) = tails.next_keyed_gate(Some(&key), &completed);
        assert!(matches!(gate, RequestGate::Prev(Some(_))));
        completed.extend(configure_done);
        completed.extend(predict_done);
        completed.extend(close_done);
        assert!(tails.len() <= 1, "episode {episode}: route tails grew to {} entries", tails.len());
    }
    let (_gate, _done) = tails.next_keyed_gate(Some("session:final"), &completed);
    assert_eq!(tails.len(), 1, "only the in-flight route should remain after reaping");
}

#[test]
fn route_tails_reopen_after_close_still_sequences() {
    let mut tails = RouteTails::new();
    let key = "session:route";
    let (_g, configure_done) = tails.next_keyed_gate(Some(key), &vec![]);
    let (_g, close_done) = tails.next_keyed_gate(Some(key), &vec![]);
    let (reopen_gate, _reopen_done) = tails.next_keyed_gate(Some(key), &configure_done);
    assert_eq!(reopen_gate, RequestGate::Prev(Some(close_done[0])), "reopen must gate on the in-flight CloseRoute");
}

#[test]
fn route_tails_reopen_after_reaped_close_is_ungated() {
    let mut tails = RouteTails::new();
    let key = "session:route";
    let (_g, configure_done) = tails.next_keyed_gate(Some(key), &vec![]);
    let (_g, close_done) = tails.next_keyed_gate(Some(key), &vec![]);
    let completed = vec![configure_done[0], close_done[0]];
    let (_g, _d) = tails.next_keyed_gate(Some("other:route"), &completed);
    let (reopen_gate, _d) = tails.next_keyed_gate(Some(key), &completed);
    assert_eq!(reopen_gate, RequestGate::Prev(None), "reaped-then-reopened route should be ungated");
}

#[test]
fn route_tails_close_drains_every_route() {
    let mut tails = RouteTails::new();
    let (_g, _d0) = tails.next_keyed_gate(Some("a:1"), &vec![]);
    let (_g, _d1) = tails.next_keyed_gate(Some("b:1"), &vec![]);
    assert_eq!(tails.len(), 2);
    let (gate, close_done) = tails.close_all_gate();
    match gate {
        RequestGate::All(prev) => assert_eq!(prev.len(), 2),
        RequestGate::Prev(_) => panic!("Close must produce an All gate over every route"),
    }
    assert!(close_done.is_empty());
    assert_eq!(tails.len(), 0, "Close must clear every route tail");
}

#[test]
fn route_tails_grouped_predict_gates_each_route_and_chains_successors() {
    let mut tails = RouteTails::new();
    let (_g, a_prev) = tails.next_keyed_gate(Some("s:a"), &vec![]);
    let (_g, b_prev) = tails.next_keyed_gate(Some("s:b"), &vec![]);
    let (gate, grouped_done) = tails.next_multi_keyed_gate(&vec!["s:a".to_owned(), "s:b".to_owned()], &vec![]);
    assert_eq!(gate, RequestGate::All(vec![a_prev[0], b_prev[0]]), "must gate on both routes");
    let (close_gate, _close_done) = tails.next_keyed_gate(Some("s:a"), &vec![]);
    assert_eq!(close_gate, RequestGate::Prev(Some(grouped_done[0])), "CloseRoute after a grouped predict must gate on it");
}

#[test]
fn grouped_predict_route_keys_dedups_referenced_routes() {
    let group = |env_id: &str| Some(env_id.to_owned());
    let grouped = JoinKind::GroupedPredict(vec![group("a"), group("b"), group("a")]);
    assert_eq!(grouped_predict_route_keys(&grouped), Some(vec!["a".to_owned(), "b".to_owned()]));
    let predict = JoinKind::Predict(group("a"));
    assert_eq!(grouped_predict_route_keys(&predict), None);
}

#[test]
fn join_requests_are_keyed_and_gated_by_their_route() {
    assert_eq!(join_request_route_key(&JoinKind::Predict(Some("env".to_string()))), Some("env".to_string()));
    assert_eq!(join_request_route_key(&JoinKind::Predict(Some(String::new()))), None);
    assert_eq!(join_request_route_key(&JoinKind::Close), None);
    let mut tails = RouteTails::new();
    let (first, done) = gate_request(&mut tails, &JoinKind::ResolveAdapter(Some("env".to_string())), &vec![]);
    assert_eq!(first, RequestGate::Prev(None));
    let (second, _) = gate_request(&mut tails, &JoinKind::Predict(Some("env".to_string())), &vec![]);
    assert_eq!(second, RequestGate::Prev(Some(done[0])));
    let (close, close_done) = gate_request(&mut tails, &JoinKind::Close, &vec![]);
    assert!(matches!(close, RequestGate::All(ref prev) if prev.len() == 1));
    assert!(close_done.is_empty());
}

#[test]
fn resolve_requests_are_checked_in_order() {
    let supported = vec!["e1".to_string()];
    let ok = ResolveRequest { env_id: Some("env".to_string()), has_env_spec: true, selected_workflow_edition: String::new() };
    assert_eq!(check_resolve_request(&ok, &supported).unwrap(), ("env".to_string(), None));
    let missing = ResolveRequest { env_id: None, ..ok.clone() };
    assert_eq!(check_resolve_request(&missing, &supported).unwrap_err(), "resolve_adapter missing adapter context");
    let empty = ResolveRequest { env_id: Some(String::new()), ..ok.clone() };
    assert_eq!(check_resolve_request(&empty, &supported).unwrap_err(), "resolve_adapter env_id is empty");
    let no_spec = ResolveRequest { has_env_spec: false, ..ok.clone() };
    assert_eq!(check_resolve_request(&no_spec, &supported).unwrap_err(), "resolve_adapter missing env_spec");
    let two = vec!["e1".to_string(), "e2".to_string()];
    assert!(check_resolve_request(&ok, &two).unwrap_err().starts_with("resolve_adapter arrived without a workflow edition pin"));
    let pinned = ResolveRequest { selected_workflow_edition: "e2".to_string(), ..ok.clone() };
    assert_eq!(check_resolve_request(&pinned, &two).unwrap(), ("env".to_string(), Some("e2".to_string())));
    assert_eq!(
        enforce_route_floor("e9", &two).unwrap_err(),
        "runtime pinned this route to workflow edition \"e9\", which this model build does not implement (implements [\"e1\", \"e2\"])"
    );
}

#[test]
fn shutdown_is_answered_by_policy() {
    let declined = shutdown_reply(false, "bye");
    assert!(!declined.accepted);
    assert_eq!(declined.message, "remote shutdown is disabled for this model endpoint");
    let plain = shutdown_reply(true, "");
    assert_eq!((plain.accepted, plain.message.as_str(), plain.reason.as_deref()), (true, "shutdown accepted", Some("remote shutdown")));
    let reasoned = shutdown_reply(true, "maintenance");
    assert_eq!(reasoned.message, "shutdown accepted: maintenance");
    assert_eq!(reasoned.reason.as_deref(), Some("maintenance"));
}

#[test]
fn grouped_outcomes_line_up_with_prepared_groups() {
    let finishers: Vec<Result<&str, Error>> = vec![Ok("a"), Err(Error::model("unresolved".to_string())), Ok("c"), Ok("d")];
    let outcomes: Vec<Result<u8, Error>> = vec![Ok(1), Err(Error::model_recoverable("oom".to_string()))];
    let paired = pair_grouped_outcomes(finishers, outcomes, SHORT_GROUPED_MESSAGE);
    assert_eq!(paired[0].as_ref().unwrap(), &("a", 1));
    assert_eq!(paired[1].as_ref().unwrap_err(), &Error::model("unresolved".to_string()));
    assert_eq!(paired[2].as_ref().unwrap_err(), &Error::model_recoverable("oom".to_string()));
    assert_eq!(
        paired[3].as_ref().unwrap_err(),
        &Error::model("predict_grouped returned fewer action sets than prepared groups".to_string())
    );
    assert_eq!(
        check_predict_count(2, 3).unwrap_err(),
        Error::model("predict returned 2 actions for 3 lanes".to_string())
    );
}

#[test]
fn handler_model_error_preserves_recoverability_on_the_wire() {
    let recoverable = model_error_value(&Error::model_recoverable("retry me".to_string()));
    assert!(recoverable.is_recoverable);
    assert_eq!(recoverable.code, ModelErrorCode::Internal);
    assert!(recoverable.message.contains("retry me"));
    let permanent = model_error_value(&Error::model("bad observation".to_string()));
    assert!(!permanent.is_recoverable);
    let internal = model_error_value(&Error::Internal("boom".to_string()));
    assert!(!internal.is_recoverable);
}

#[test]
fn check_actions_conform_rejects_structural_mismatch() {
    assert!(check_actions_conform(&vec![None]).is_ok());
    assert!(check_actions_conform(&vec![None, None]).is_ok());
    let error = check_actions_conform(&vec![None, Some("expected Box, got Discrete".to_string())]).unwrap_err();
    assert_eq!(
        error,
        Error::model("model action for lane 1 does not match the action space: expected Box, got Discrete".to_string())
    );
}

fn slot(episode: &str, index: i32) -> RouteSlot {
    RouteSlot { episode_id: episode.to_string(), env_index: index, step: 0, reset: false }
}

#[test]
fn predict_routes_are_validated() {
    let route = |slots: Vec<RouteSlot>| PredictRoute {
        session_id: "s".to_string(),
        route_id: "r".to_string(),
        request_id: "q".to_string(),
        slots,
    };
    assert!(validate_predict_route(&route(vec![slot("e0", 0), slot("e1", 1)])).is_ok());
    assert_eq!(
        validate_predict_route(&route(vec![])).unwrap_err(),
        Error::Internal("model route must include at least one slot".to_string())
    );
    assert_eq!(
        validate_predict_route(&route(vec![slot("e0", 0), slot("", 1)])).unwrap_err(),
        Error::Internal("model route slot 1 missing episode_id".to_string())
    );
    assert_eq!(
        validate_predict_route(&route(vec![slot("e0", 2), slot("e1", 2)])).unwrap_err(),
        Error::Internal("model route has duplicate env_index 2".to_string())
    );
    let mut no_route = route(vec![slot("e0", 0)]);
    no_route.route_id = String::new();
    assert_eq!(validate_predict_route(&no_route).unwrap_err(), Error::Internal("model route_id is empty".to_string()));
    assert_eq!(saturating_nanos(5), 5);
    assert_eq!(saturating_nanos(u128::MAX), u64::MAX);
}

#[test]
fn multi_env_lifecycle_uses_slot_env_index() {
    let mut active = ActiveEpisodes::new();
    let mut lane_resets = Vec::new();
    let mut episode_ends = Vec::new();
    let mut resets = 0;
    let mut observe = |active: &mut ActiveEpisodes, slots: Vec<(i32, &str)>, reset: bool| {
        let mut emit = reset;
        for (env_index, episode_id) in slots {
            let edges = active.lane_update("session:route", env_index, episode_id.to_string(), reset);
            if let Some(end) = edges.ended {
                episode_ends.push(end);
            }
            if edges.lane_reset {
                lane_resets.push(env_index);
                emit = true;
            }
        }
        if emit {
            resets += 1;
        }
    };
    observe(&mut active, vec![(2, "episode-a"), (3, "episode-b")], true);
    observe(&mut active, vec![(0, "episode-c"), (1, "episode-d"), (2, "episode-a"), (3, "episode-b")], false);
    assert_eq!(resets, 1);
    assert!(episode_ends.is_empty());
    lane_resets.sort_unstable();
    assert_eq!(lane_resets, vec![2, 3]);
    let ends = active.route_ends("session:route");
    assert_eq!(
        ends,
        vec![
            ModelEpisodeEnd { episode_id: "episode-c".to_string(), env_index: 0 },
            ModelEpisodeEnd { episode_id: "episode-d".to_string(), env_index: 1 },
            ModelEpisodeEnd { episode_id: "episode-a".to_string(), env_index: 2 },
            ModelEpisodeEnd { episode_id: "episode-b".to_string(), env_index: 3 },
        ]
    );
}

#[test]
fn next_step_partial_roll_fires_on_lane_reset_only_for_rolled_lane() {
    let mut active = ActiveEpisodes::new();
    active.lane_update("session:route", 0, "e0".to_string(), true);
    active.lane_update("session:route", 1, "e1".to_string(), true);
    let rolled = active.lane_update("session:route", 0, "e0b".to_string(), true);
    let kept = active.lane_update("session:route", 1, "e1".to_string(), false);
    assert!(rolled.lane_reset);
    assert_eq!(rolled.ended, Some(ModelEpisodeEnd { episode_id: "e0".to_string(), env_index: 0 }));
    assert!(!kept.lane_reset);
    assert_eq!(kept.ended, None);
}

#[test]
fn session_close_drains_every_episode_in_lane_order() {
    let mut active = ActiveEpisodes::new();
    active.lane_update("b", 1, "z".to_string(), false);
    active.lane_update("a", 1, "y".to_string(), false);
    active.lane_update("a", 0, "x".to_string(), false);
    let single = active.single_update("c", 0, "w".to_string(), false);
    assert!(!single.reset);
    let again = active.single_update("c", 0, "v".to_string(), false);
    assert_eq!(again.ended, None, "a non-reset observation keeps the recorded episode");
    let reset = active.single_update("c", 0, "u".to_string(), true);
    assert!(reset.reset);
    assert_eq!(reset.ended, Some(ModelEpisodeEnd { episode_id: "w".to_string(), env_index: 0 }));
    active.remove("c", 0);
    let ends: Vec<(i32, String)> = active.drain_all().into_iter().map(|e| (e.env_index, e.episode_id)).collect();
    assert_eq!(ends, vec![(0, "x".to_string()), (1, "y".to_string()), (1, "z".to_string())]);
    assert!(active.drain_all().is_empty());
}

#[test]
fn route_context_accessors() {
    let route = ModelRouteContext {
        session_id: "s".to_string(),
        env_id: "e".to_string(),
        request_id: "r".to_string(),
        episode_ids: vec!["a".to_string(), "b".to_string()],
    };
    assert_eq!(route.primary_episode_id(), "a");
    assert_eq!(route.episode_ids(), vec!["a".to_string(), "b".to_string()]);
    assert_eq!(ModelRouteContext::default().primary_episode_id(), "");
}

#[test]
fn local_run_needs_an_action_space() {
    assert!(check_local_action_space(true).is_ok());
    assert_eq!(
        check_local_action_space(false).unwrap_err(),
        Error::Internal("env contract has no action_space; a model cannot encode actions without it".to_string())
    );
}

#[test]
fn lockstep_vector_env_refuses_chunking() {
    assert!(check_lockstep_chunking(1, false, 8).is_ok());
    assert!(check_lockstep_chunking(4, true, 8).is_ok());
    assert!(check_lockstep_chunking(4, false, 1).is_ok());
    let refused = check_lockstep_chunking(4, false, 8).unwrap_err();
    assert_eq!(
        refused,
        Error::Internal(
            "execution_horizon=8 cannot be combined with a lockstep vector env (num_envs=4): chunk replay is whole-batch, so one lane's episode end discards every lane's buffered frames. Use num_envs=1, a lane endpoint, or execution_horizon=1."
                .to_string()
        )
    );
}

#[test]
fn runtime_failures_map_back_to_public_errors() {
    let wrapped = Error::model_recoverable("busy".to_string());
    let failure = model_rpc(wrapped.clone());
    match &failure {
        RuntimeFailure::ModelRpc { message, recoverable, source } => {
            assert!(*recoverable);
            assert_eq!(message, "model error: busy");
            assert_eq!(source.as_ref(), Some(&wrapped));
        }
        other => panic!("unexpected {other:?}"),
    }
    assert_eq!(run_error(failure), wrapped);
    assert_eq!(
        run_error(RuntimeFailure::ModelRpc { message: "predict failed".to_string(), recoverable: false, source: None }),
        Error::model("predict failed".to_string())
    );
    let closed = run_error(RuntimeFailure::EnvRpc {
        message: "env step 3 failed".to_string(),
        recoverable: false,
        source: Some(TransportError::Transport(TransportFailure::ConnectionClosed)),
    });
    assert_eq!(closed, Error::Connection("env step 3 failed".to_string()));
    let plain = run_error(RuntimeFailure::EnvRpc { message: "env reset failed".to_string(), recoverable: true, source: None });
    match plain {
        Error::Environment(env) => {
            assert_eq!(env.message, "env reset failed");
            assert!(env.is_recoverable);
        }
        other => panic!("unexpected {other:?}"),
    }
    assert_eq!(
        run_error(RuntimeFailure::OperationTimeout { timeout: std::time::Duration::from_millis(5) }),
        Error::Timeout(std::time::Duration::from_millis(5))
    );
    assert_eq!(run_error(RuntimeFailure::Other("boom".to_string())), Error::Internal("boom".to_string()));
}

#[test]
fn held_episode_counts_saturate() {
    assert_eq!(held_episodes_count(7), 7);
    assert_eq!(held_episodes_count(u64::MAX), u32::MAX);
    assert_eq!(request_lane_count(0), 1);
    assert_eq!(request_lane_count(3), 3);
}

#[test]
fn local_grouped_results_line_up_with_requests() {
    let prepared: Vec<Result<u8, Error>> = vec![Ok(1), Ok(2)];
    let results: Vec<Result<u8, Error>> = vec![Ok(10)];
    let paired = pair_local_results(true, prepared, results);
    assert_eq!(paired[0].as_ref().unwrap(), &(1, 10));
    assert_eq!(paired[1].as_ref().unwrap_err(), &Error::model(SHORT_LOCAL_MESSAGE.to_string()));
    let refused = pair_local_results::<u8, u8>(false, vec![Ok(1), Ok(2)], vec![Ok(3), Ok(4)]);
    assert_eq!(refused.len(), 2);
    for outcome in refused {
        assert_eq!(outcome.unwrap_err(), Error::model("model route contract missing action space".to_string()));
    }
}

fn discrete_contract(n: u64) -> EnvContract {
    let mut contract = single_lane_test_contract(1);
    contract.action_space = Some(SpaceSpec { kind: SpaceKind::Discrete { n, start: 0 } });
    contract
}

#[test]
fn route_configs_serve_resolved_routes_until_released() {
    let mut routes = RouteConfigs::new();
    assert_eq!(
        routes.action_space_of("env-a").unwrap_err(),
        Error::model("model env adapter was not resolved".to_string())
    );
    routes.resolve("env-a".to_string(), RouteConfig { env_contract: discrete_contract(3), floor: None });
    routes.resolve(
        "env-b".to_string(),
        RouteConfig { env_contract: single_lane_test_contract(1), floor: Some("2025.1".to_string()) },
    );
    assert_eq!(routes.len(), 2);
    assert_eq!(routes.action_space_of("env-a").unwrap(), &SpaceSpec { kind: SpaceKind::Discrete { n: 3, start: 0 } });
    assert_eq!(
        routes.action_space_of("env-b").unwrap_err(),
        Error::model("model route contract missing action space".to_string())
    );
    routes.resolve("env-a".to_string(), RouteConfig { env_contract: discrete_contract(5), floor: None });
    assert_eq!(routes.len(), 2);
    assert_eq!(routes.action_space_of("env-a").unwrap(), &SpaceSpec { kind: SpaceKind::Discrete { n: 5, start: 0 } });
    routes.release("env-a");
    assert_eq!(
        routes.action_space_of("env-a").unwrap_err(),
        Error::model("model env adapter was not resolved".to_string())
    );
    assert_eq!(routes.len(), 1);
}

#[test]
fn closing_the_session_tears_down_every_route() {
    let mut routes = RouteConfigs::new();
    routes.resolve("env-a".to_string(), RouteConfig { env_contract: discrete_contract(2), floor: None });
    routes.resolve("env-b".to_string(), RouteConfig { env_contract: discrete_contract(2), floor: None });
    routes.resolve("env-a".to_string(), RouteConfig { env_contract: discrete_contract(4), floor: None });
    assert_eq!(routes.close(), vec!["env-a".to_string(), "env-b".to_string()]);
    assert_eq!(routes.len(), 0);
    assert!(routes.action_space_of("env-b").is_err());
}

#[test]
fn join_requests_are_planned_by_kind() {
    assert_eq!(plan_request(&JoinKind::Predict(None)), RequestStep::Predict);
    assert_eq!(plan_request(&JoinKind::ResolveAdapter(Some("e".to_string()))), RequestStep::ResolveAdapter);
    assert_eq!(plan_request(&JoinKind::GroupedPredict(vec![])), RequestStep::GroupedPredict);
    assert_eq!(plan_request(&JoinKind::Close), RequestStep::CloseSession);
    assert_eq!(
        plan_request(&JoinKind::ResetAdapter(Some("env-1".to_string()))),
        RequestStep::ResetAdapter("env-1".to_string())
    );
    assert_eq!(
        plan_request(&JoinKind::ResetAdapter(Some(String::new()))),
        RequestStep::Refuse("reset_adapter missing env_id".to_string())
    );
    assert_eq!(
        plan_request(&JoinKind::ReleaseAdapter(Some("env-1".to_string()))),
        RequestStep::ReleaseAdapter("env-1".to_string())
    );
    assert_eq!(
        plan_request(&JoinKind::ReleaseAdapter(None)),
        RequestStep::Refuse("release_adapter missing env_id".to_string())
    );
    assert_eq!(plan_request(&JoinKind::Empty), RequestStep::Refuse("empty model request".to_string()));
}

fn observed_contract() -> EnvContract {
    let mut contract = single_lane_test_contract(1);
    contract.observation_space = Some(SpaceSpec { kind: SpaceKind::Discrete { n: 4, start: 0 } });
    contract
}

#[test]
fn ensure_decodable_catches_malformed_requests_without_decoding() {
    let contract = observed_contract();
    assert!(rlmesh::model::types::ensure_decodable(true, Some(&contract)).is_ok());
    assert_eq!(
        rlmesh::model::types::ensure_decodable(false, Some(&contract)).unwrap_err(),
        Error::model("observation absent; a predict request must carry an observation".to_string())
    );
    assert_eq!(
        rlmesh::model::types::ensure_decodable(true, None).unwrap_err(),
        Error::model("observation missing env contract; cannot decode".to_string())
    );
    let spaceless = single_lane_test_contract(1);
    assert_eq!(
        rlmesh::model::types::ensure_decodable(true, Some(&spaceless)).unwrap_err(),
        Error::model("env contract missing observation space".to_string())
    );
}

#[test]
fn decoded_requires_exactly_one_lane() {
    assert!(rlmesh::model::types::check_single_lane(1).is_ok());
    assert_eq!(
        rlmesh::model::types::check_single_lane(2).unwrap_err(),
        Error::model("decoded() requires a single-env observation, got 2 lanes".to_string())
    );
}

#[test]
fn absent_observation_errors_not_empty_vec() {
    let contract = observed_contract();
    assert_eq!(
        rlmesh::model::types::check_lanes_decodable(false, Some(&contract)).unwrap_err(),
        Error::model("observation absent; cannot decode lanes (check is_some() first)".to_string())
    );
    assert!(rlmesh::model::types::check_lanes_decodable(true, Some(&contract)).is_ok());
}

#[test]
fn predict_routes_cross_the_wire() {
    let wire = WirePredictContext {
        session_id: "s".to_string(),
        route_id: "r".to_string(),
        request_id: "q".to_string(),
        slots: vec![
            WirePredictSlot { episode_id: "e0".to_string(), env_index: 0, step: 3, reset: false },
            WirePredictSlot { episode_id: "e1".to_string(), env_index: u32::MAX, step: 0, reset: true },
        ],
    };
    let route = route_from_wire(wire.clone());
    assert_eq!(route.slots[0].env_index, 0);
    assert_eq!(route.slots[1].env_index, i32::MAX);
    assert!(route.slots[1].reset);
    let back = route_to_wire(&route);
    assert_eq!(back.slots[0], wire.slots[0]);
    assert_eq!(back.slots[1].env_index, i32::MAX as u32);
    let mut negative = route.clone();
    negative.slots[0].env_index = -4;
    assert_eq!(route_to_wire(&negative).slots[0].env_index, 0);
    assert_eq!(
        route_from_request(None).unwrap_err(),
        Error::Internal("model request missing route context".to_string())
    );
    assert_eq!(route_from_request(Some(wire)).unwrap().route_id, "r");
}

#[test]
fn run_local_options_build_by_chaining() {
    let options = rlmesh::RunLocalOptions::parse("tcp://localhost:50051").unwrap();
    assert_eq!(options.execution_horizon, 1);
    assert!(options.max_episodes.is_none());
    let options = options
        .for_episodes(3)
        .base_seed(7)
        .execution_horizon(0)
        .episode_seeds(vec![1, 2])
        .max_episode_steps(100)
        .max_episode_seconds(2.5f64.to_bits())
        .close_env(true);
    assert_eq!(options.max_episodes, Some(3));
    assert_eq!(options.base_seed, Some(7));
    assert_eq!(options.execution_horizon, 1);
    assert_eq!(options.episode_seeds, vec![1, 2]);
    assert_eq!(options.max_episode_steps, Some(100));
    assert_eq!(options.max_episode_seconds.map(f64::from_bits), Some(2.5));
    assert!(options.close_env);
    assert_eq!(options.execution_horizon(8).execution_horizon, 8);
    assert!(matches!(rlmesh::RunLocalOptions::parse("not an address"), Err(Error::Address(_))));
}

#[test]
fn lifecycle_state_is_keyed_by_session_and_route() {
    let route = rlmesh::model::wire::PredictRoute {
        session_id: "sess".to_string(),
        route_id: "route".to_string(),
        request_id: "req".to_string(),
        slots: vec![],
    };
    assert_eq!(rlmesh::model::lifecycle::route_state_key(&route), "sess:route");
}

#[test]
fn run_local_and_serve_options_cover_all_axes() {
    let run = rlmesh::RunLocalOptions::parse("tcp://env:50051").unwrap().for_episodes(5).base_seed(123);
    assert_eq!(run.max_episodes, Some(5));
    assert_eq!(run.base_seed, Some(123));
    assert_eq!(run.env_address, rlmesh::ConnectAddress::parse("tcp://env:50051").unwrap());

    let default_run = rlmesh::RunLocalOptions::new(rlmesh::ConnectAddress::parse("tcp://env:1").unwrap());
    assert_eq!(default_run.max_episodes, None);
    assert_eq!(default_run.base_seed, None);

    let serve = rlmesh::ServeModelOptions::parse("tcp://0.0.0.0:50061")
        .unwrap()
        .token("secret".to_string())
        .serve_options(rlmesh::ServeOptions { allow_remote_shutdown: true, ..rlmesh::ServeOptions::default() });
    assert_eq!(serve.token, "secret");
    assert!(serve.serve.allow_remote_shutdown);

    let default_serve = rlmesh::ServeModelOptions::new(rlmesh::BindAddress::parse("tcp://0.0.0.0:1").unwrap());
    assert!(default_serve.token.is_empty());
    assert_eq!(default_serve.serve, rlmesh::ServeOptions::default());
}

#[test]
fn grouped_gates_wait_for_each_referenced_route_and_take_them_over() {
    let mut tails = RouteTails::new();
    let (_, a_done) = gate_request(&mut tails, &JoinKind::Predict(Some("a".to_string())), &vec![]);
    let (_, b_done) = gate_request(&mut tails, &JoinKind::Predict(Some("b".to_string())), &vec![]);
    let grouped = JoinKind::GroupedPredict(vec![Some("a".to_string()), Some("b".to_string()), Some("a".to_string()), None]);
    let (gate, done) = gate_request(&mut tails, &grouped, &vec![]);
    assert_eq!(gate, RequestGate::All(vec![a_done[0], b_done[0]]));
    assert_eq!(done, vec![2, 3], "one fresh ticket per referenced route");
    let (after, _) = gate_request(&mut tails, &JoinKind::Predict(Some("b".to_string())), &vec![]);
    assert_eq!(after, RequestGate::Prev(Some(3)), "the grouped predict took over route b");
    let (close, close_done) = gate_request(&mut tails, &JoinKind::Close, &vec![]);
    match close {
        RequestGate::All(mut prev) => {
            prev.sort();
            assert_eq!(prev, vec![2, 4], "a close waits for the tail of every route");
        },
        other => panic!("unexpected gate {other:?}"),
    }
    assert!(close_done.is_empty());
    assert_eq!(tails.len(), 0);
}

#[test]
fn local_answers_must_hold_one_action_per_lane() {
    let frames = |n: usize| PredictFrames { actions: vec![0u8; n], replay: Vec::new() };
    let prepared: Vec<Result<(&str, usize), Error>> =
        vec![Ok(("a", 2)), Err(Error::model("undecodable".to_string())), Ok(("c", 1)), Ok(("d", 1))];
    let results = vec![Ok(frames(2)), Ok(frames(3))];
    let finished = finish_local_results(true, prepared, results);
    assert_eq!(finished.len(), 4);
    assert_eq!(finished[0].as_ref().unwrap().0, "a");
    assert_eq!(finished[1].as_ref().unwrap_err(), &Error::model("undecodable".to_string()));
    assert_eq!(finished[2].as_ref().unwrap_err(), &Error::model("predict returned 3 actions for 1 lanes".to_string()));
    assert_eq!(finished[3].as_ref().unwrap_err(), &Error::model(SHORT_LOCAL_MESSAGE.to_string()));
    let refused = finish_local_results::<&str, u8>(false, vec![Ok(("a", 1))], vec![Ok(frames(1))]);
    assert_eq!(refused[0].as_ref().unwrap_err(), &Error::model("model route contract missing action space".to_string()));
}

#[test]
fn each_wire_frame_must_decode_to_one_action() {
    let mut session: RemoteSession<u32, ()> = RemoteSession::new();
    session.begin_episode("ep".to_string(), None);
    assert_eq!(
        session.accept_decoded_frames(vec![]).unwrap_err(),
        Error::Internal("predict returned no actions for a single-env route".to_string())
    );
    assert_eq!(
        session.accept_decoded_frames(vec![vec![1], vec![2, 3], vec![4]]).unwrap_err(),
        Error::Internal("predict frame decoded to 2 actions for a single-env route".to_string())
    );
    assert_eq!(session.replay.iter().copied().collect::<Vec<u32>>(), vec![1]);
    session.begin_episode("ep-2".to_string(), None);
    session.accept_decoded_frames(vec![vec![5], vec![6]]).unwrap();
    assert_eq!(session.next_action(), 5);
    assert_eq!(session.next_action(), 6);
}

#[test]
fn a_chunk_replays_without_the_model_then_asks_again() {
    let mut session: RemoteSession<u32, ()> = RemoteSession::new();
    session.begin_episode("ep".to_string(), None);
    assert!(session.plan_predict().unwrap().call_model);
    session.accept_frames(vec![10, 11, 12]).unwrap();
    assert_eq!(session.next_action(), 10);
    for expected in [11, 12] {
        assert!(!session.plan_predict().unwrap().call_model);
        assert_eq!(session.next_action(), expected);
    }
    assert!(session.plan_predict().unwrap().call_model, "every frame replayed: the model is asked again");
}

#[test]
fn decoded_observations_need_their_contract_and_one_lane() {
    let mut contract = single_lane_test_contract(1);
    assert_eq!(
        decoded_lanes::<u8>(None, Some(&contract)).unwrap_err(),
        Error::model("observation absent; cannot decode lanes (check is_some() first)".to_string())
    );
    assert_eq!(
        decoded_lanes(Some(vec![1u8]), None).unwrap_err(),
        Error::model("observation missing env contract; cannot decode".to_string())
    );
    assert_eq!(
        decoded_lanes(Some(vec![1u8]), Some(&contract)).unwrap_err(),
        Error::model("env contract missing observation space".to_string())
    );
    contract.observation_space = Some(SpaceSpec { kind: SpaceKind::Discrete { n: 2, start: 0 } });
    assert_eq!(decoded_lanes(Some(vec![1u8, 2]), Some(&contract)).unwrap(), vec![1, 2]);
    assert_eq!(decoded_single(Some(vec![7u8]), Some(&contract)).unwrap(), 7);
    assert_eq!(
        decoded_single(Some(vec![1u8, 2]), Some(&contract)).unwrap_err(),
        Error::model("decoded() requires a single-env observation, got 2 lanes".to_string())
    );
}
