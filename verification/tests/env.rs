use rlmesh::env::client::{check_scalar_endpoint, flags_mask, mask_flags, validate_env_contract};
use rlmesh::env::episodes::{reset_lane_indices, EpisodeIds};
use rlmesh::env::types::{
    proto_episode_metadata_to_public, public_episode_metadata_to_proto, EpisodeMetadata, WireEpisodeMetadata,
};
use rlmesh::env::wire::{
    check_lockstep_step, check_step_widths, lane_reset_requests, reset_shape,
    batch_infos, fold_phases, gym_error_to_env_error, lane_reset_options, lanes_for, proto_env_indices_to_native,
    render_env_index, validate_action_count, validate_count, EndpointPhases, EnvRuntimeError, WireErrorCode,
    TRIAL_INDEX_OPTION,
};
use rlmesh::single::{
    single_reset_request, single_reset_result, single_step_request, single_step_result, vector_reset_request,
    vector_reset_result, vector_step_request, vector_step_result,
};
use rlmesh::spaces::request;
use rlmesh::spaces::{copy_map, AutoresetMode, DType, EnvContract, MetaMap, MetaValue, SpaceKind, SpaceSpec, SpaceValue};
use rlmesh::{Error, ErrorCode, ResetRequest, SingleEnvAdapter, StepRequest};

fn box_space(shape: Vec<u64>) -> SpaceSpec {
    SpaceSpec {
        kind: SpaceKind::Box { low: (-1.0f64).to_bits(), high: 1.0f64.to_bits(), shape, dtype: DType::Float32 },
    }
}

fn discrete_space(n: u64) -> SpaceSpec {
    SpaceSpec { kind: SpaceKind::Discrete { n, start: 0 } }
}

#[test]
fn validate_env_contract_requires_spaces() {
    let observation_space = box_space(vec![1]);
    let action_space = discrete_space(2);
    let valid = EnvContract {
        observation_space: Some(observation_space.clone()),
        action_space: Some(action_space.clone()),
        ..Default::default()
    };
    assert!(validate_env_contract(&valid).is_ok());

    let missing_observation = EnvContract { action_space: Some(action_space), ..Default::default() };
    let err = validate_env_contract(&missing_observation).unwrap_err();
    assert!(err.to_text().contains("missing observation_space"));

    let missing_action = EnvContract { observation_space: Some(observation_space), ..Default::default() };
    let err = validate_env_contract(&missing_action).unwrap_err();
    assert!(err.to_text().contains("missing action_space"));
}

#[test]
fn curated_spaces_facade_separates_the_two_request_families() {
    let env_layer = ResetRequest { seeds: vec![1, 2, 3], ..Default::default() };
    assert_eq!(env_layer.seeds.len(), 3);

    let single_env = request::ResetRequest { seed: Some(7), ..Default::default() };
    assert_eq!(single_env.seed, Some(7));

    fn assert_distinct<A: 'static, B: 'static>() {
        assert_ne!(
            std::any::TypeId::of::<A>(),
            std::any::TypeId::of::<B>(),
            "env-layer and single-env ResetRequest must be distinct types"
        );
    }
    assert_distinct::<ResetRequest, request::ResetRequest>();
}

fn trial_list(trials: &[i64]) -> MetaMap {
    let mut map = MetaMap::new();
    map.insert(
        TRIAL_INDEX_OPTION.to_string(),
        MetaValue::List(trials.iter().copied().map(MetaValue::Int).collect()),
    );
    map
}

#[test]
fn lane_reset_options_narrows_the_trial_list_to_one_lane() {
    let mut options = trial_list(&[7, 8, 9]);
    options.insert("other".to_string(), MetaValue::Bool(true));

    for (pos, expected) in [(0, 7), (1, 8), (2, 9)] {
        let sliced = lane_reset_options(Some(&options), pos, 3).unwrap().unwrap();
        assert_eq!(sliced.get(TRIAL_INDEX_OPTION), Some(&MetaValue::Int(expected)));
        assert_eq!(sliced.get("other"), Some(&MetaValue::Bool(true)), "only trial_index is sliced");
    }

    let mut scalar = MetaMap::new();
    scalar.insert(TRIAL_INDEX_OPTION.to_string(), MetaValue::Int(4));
    assert_eq!(lane_reset_options(Some(&scalar), 0, 1).unwrap(), Some(copy_map(&scalar)));
    assert_eq!(lane_reset_options(None, 0, 1).unwrap(), None);
}

#[test]
fn a_trial_list_shorter_than_the_lanes_is_rejected() {
    let error = lane_reset_options(Some(&trial_list(&[7])), 1, 2).unwrap_err();

    assert_eq!(error.code, WireErrorCode::InvalidAction);
    assert!(
        error.message.contains("list of 1 entries") && error.message.contains("covers 2 lanes"),
        "the error must name both lengths, got {}",
        error.message,
    );
}

#[test]
fn meta_map_insert_replaces_in_place() {
    let mut map = MetaMap::new();
    map.insert("a".to_string(), MetaValue::Int(1));
    map.insert("b".to_string(), MetaValue::Int(2));
    map.insert("a".to_string(), MetaValue::Int(3));
    assert_eq!(map.entries.len(), 2);
    assert_eq!(map.get("a"), Some(&MetaValue::Int(3)));
    assert_eq!(map.get("missing"), None);
}

#[test]
fn wire_counts_and_lanes() {
    assert!(validate_count(&vec![1, 2], 2, "observations").is_ok());
    let error = validate_count(&vec![1], 2, "observations").unwrap_err();
    assert_eq!(error.code, WireErrorCode::Internal);
    assert_eq!(error.message, "env returned 1 observations for 2 envs");
    let error = validate_action_count(&vec![0u8; 3], 2).unwrap_err();
    assert_eq!(error.code, WireErrorCode::InvalidAction);
    assert_eq!(error.message, "expected 2 actions, got 3");
    assert!(error.is_recoverable);
    assert_eq!(render_env_index(&vec![]).unwrap(), None);
    assert_eq!(render_env_index(&vec![3]).unwrap(), Some(3));
    assert_eq!(render_env_index(&vec![1, 2]).unwrap_err().code, WireErrorCode::Unsupported);
    assert_eq!(proto_env_indices_to_native(vec![0, 5, u32::MAX]), vec![0, 5, i32::MAX]);
    assert_eq!(lanes_for(3, &vec![]), vec![0, 1, 2]);
    assert_eq!(lanes_for(3, &vec![2, 0]), vec![2, 0]);
}

#[test]
fn env_runtime_errors_map_to_wire_codes() {
    let bad = gym_error_to_env_error(EnvRuntimeError::InvalidValue("out of range".to_string()));
    assert_eq!(bad.code, WireErrorCode::InvalidAction);
    assert_eq!(bad.message, "out of range");
    let crashed = gym_error_to_env_error(EnvRuntimeError::Runtime("boom".to_string()));
    assert_eq!(crashed.code, WireErrorCode::Internal);
    assert!(!crashed.is_recoverable);
}

#[test]
fn batch_infos_follows_the_vector_convention() {
    let mut info = MetaMap::new();
    info.insert("k".to_string(), MetaValue::Int(1));
    let single = batch_infos(vec![Some(copy_map(&info))], None);
    assert_eq!(single, Some(copy_map(&info)));
    assert_eq!(batch_infos(vec![None, None], None), None);

    let batched = batch_infos(vec![Some(copy_map(&info)), None], Some(&vec![false, true])).unwrap();
    assert_eq!(
        batched.get("final_info"),
        Some(&MetaValue::List(vec![MetaValue::Dict(copy_map(&info)), MetaValue::Dict(MetaMap::new())]))
    );
    assert_eq!(
        batched.get("_final_info"),
        Some(&MetaValue::List(vec![MetaValue::Bool(false), MetaValue::Bool(true)]))
    );
    let unmasked = batch_infos(vec![Some(copy_map(&info)), None], None).unwrap();
    assert_eq!(
        unmasked.get("_final_info"),
        Some(&MetaValue::List(vec![MetaValue::Bool(true), MetaValue::Bool(true)]))
    );
}

fn phases(decode: u64, user: u64, encode: u64, queue: u64) -> EndpointPhases {
    EndpointPhases { decode_ns: decode, user_ns: user, encode_ns: encode, queue_ns: queue, lane_skew_ns: None }
}

#[test]
fn fold_phases_sums_work_and_spreads_the_skew() {
    let lone = EndpointPhases { lane_skew_ns: Some(9), ..phases(1, 2, 3, 4) };
    assert_eq!(fold_phases(vec![lone]), lone);
    let folded = fold_phases(vec![phases(1, 10, 2, 5), phases(3, 40, 4, 7), phases(5, 25, 6, 1)]);
    assert_eq!(folded.decode_ns, 9);
    assert_eq!(folded.user_ns, 75);
    assert_eq!(folded.encode_ns, 12);
    assert_eq!(folded.queue_ns, 7);
    assert_eq!(folded.lane_skew_ns, Some(30));
    assert_eq!(fold_phases(vec![phases(1, 0, 0, 0), phases(1, 0, 0, 0)]).lane_skew_ns, None);
    assert_eq!(fold_phases(vec![]), EndpointPhases::default());
}

#[test]
fn partial_reset_refuses_a_negative_lane() {
    assert_eq!(reset_lane_indices(&vec![0, 2]).unwrap(), vec![0, 2]);
    match reset_lane_indices(&vec![1, -3, -4]).unwrap_err() {
        Error::Environment(error) => {
            assert_eq!(error.code, ErrorCode::InvalidAction);
            assert!(!error.is_recoverable);
            assert_eq!(error.message, "partial reset: env_index -3 must be a non-negative lane offset");
        }
        other => panic!("expected an environment error, got {other:?}"),
    }
}

fn is_uuid_text(id: &str) -> bool {
    let bytes = id.as_bytes();
    id.len() == 36 && bytes[8] == b'-' && bytes[13] == b'-' && bytes[18] == b'-' && bytes[23] == b'-'
}

#[test]
fn the_client_mints_every_episode_id() {
    let mut ids = EpisodeIds::new(3);
    assert!(ids.ids.iter().all(String::is_empty));
    let pushed = ids.reset_ids(&vec![]);
    assert_eq!(pushed.len(), 3);
    assert_eq!(ids.ids, pushed);
    assert!(pushed.iter().all(|id| is_uuid_text(id)));
    let before = ids.ids.clone();
    let partial = ids.reset_ids(&vec![1]);
    assert_eq!(partial.len(), 1);
    assert_eq!(ids.ids[0], before[0], "a lane the reset does not name keeps its id");
    assert_eq!(ids.ids[1], partial[0]);
    assert_ne!(ids.ids[1], before[1]);
    assert_eq!(ids.ids[2], before[2]);
}

#[test]
fn completed_lanes_roll_only_under_next_step_autoreset() {
    let mut ids = EpisodeIds::new(2);
    ids.reset_ids(&vec![]);
    let before = ids.ids.clone();
    ids.roll_after_step(AutoresetMode::Disabled, &vec![0]);
    assert_eq!(ids.ids, before);
    ids.roll_after_step(AutoresetMode::NextStep, &vec![1, 7, -1]);
    assert_eq!(ids.ids[0], before[0]);
    assert_ne!(ids.ids[1], before[1]);
    let mut explicit = EpisodeIds::new(2);
    explicit.apply_partial_reset(&vec![0, 0], &vec!["a".to_string(), "b".to_string()]);
    assert_eq!(explicit.ids, vec!["b".to_string(), String::new()], "the last id for a lane wins");
}

#[test]
fn scalar_client_checks() {
    assert!(check_scalar_endpoint(1).is_ok());
    assert_eq!(
        check_scalar_endpoint(4).unwrap_err(),
        Error::Internal(
            "RemoteEnv connects to one environment, but the endpoint reports num_envs=4; use RemoteVectorEnv instead"
                .to_string()
        )
    );
    assert_eq!(mask_flags(&vec![0, 1, 7]), vec![false, true, true]);
    assert_eq!(flags_mask(&vec![true, false]), vec![1, 0]);
}

#[test]
fn single_env_adapter_is_a_vector_of_one() {
    let adapter = SingleEnvAdapter::new(42u32);
    assert_eq!(*adapter.inner(), 42);
    assert_eq!(adapter.num_envs(), 1);
    assert_eq!(adapter.into_inner(), 42);

    let single = single_reset_request(ResetRequest { seeds: vec![5, 6], timeout_ms: 30, ..Default::default() });
    assert_eq!(single.seed, Some(5));
    assert_eq!(single.timeout_ms, 30);
    assert_eq!(single_reset_request(ResetRequest::default()).seed, None);

    let step = single_step_request(StepRequest { actions: vec![SpaceValue::Discrete(1)], timeout_ms: 0 });
    assert_eq!(step.action, Some(SpaceValue::Discrete(1)));

    let batched = vector_reset_result(request::ResetResult {
        observation: Some(SpaceValue::Discrete(3)),
        info: None,
        episode_id: Some("ep".to_string()),
    });
    assert_eq!(batched.observations, vec![SpaceValue::Discrete(3)]);
    assert_eq!(batched.episode_ids, vec!["ep".to_string()]);
}

#[test]
fn step_results_must_be_one_entry_per_lane() {
    assert!(check_step_widths(2, 2, 2, 2, 2).is_ok());
    let error = check_step_widths(2, 1, 2, 0, 2).unwrap_err();
    assert_eq!(error.code, WireErrorCode::Internal);
    assert_eq!(error.message, "env returned 1 terminated values for 2 envs");
    assert_eq!(check_step_widths(3, 2, 2, 2, 2).unwrap_err().message, "env returned 3 observations for 2 envs");
    assert_eq!(check_step_widths(2, 2, 0, 2, 2).unwrap_err().message, "env returned 0 truncated values for 2 envs");
    assert_eq!(check_step_widths(2, 2, 2, 5, 2).unwrap_err().message, "env returned 5 rewards values for 2 envs");
}

#[test]
fn lockstep_envs_refuse_lane_steps_and_shape_resets() {
    assert!(check_lockstep_step(&vec![]).is_ok());
    let error = check_lockstep_step(&vec![1]).unwrap_err();
    assert_eq!(error.code, WireErrorCode::Unsupported);
    assert!(error.message.contains("needs a lane endpoint"));
    assert_eq!(reset_shape(4, &vec![]), (4, false));
    assert_eq!(reset_shape(4, &vec![2, 3]), (2, true));
}

#[test]
fn lane_resets_fan_out_seeds_and_trial_slices() {
    let mut options = trial_list(&[7, 8]);
    options.insert("other".to_string(), MetaValue::Bool(true));
    let requests = lane_reset_requests(&vec![11], Some(&options), 2, 30).unwrap();
    assert_eq!(requests.len(), 2);
    assert_eq!(requests[0].seed, Some(11));
    assert_eq!(requests[1].seed, None);
    assert_eq!(requests[1].timeout_ms, 30);
    assert_eq!(requests[1].options.as_ref().unwrap().get(TRIAL_INDEX_OPTION), Some(&MetaValue::Int(8)));
    let error = lane_reset_requests(&vec![], Some(&trial_list(&[7])), 3, 0).unwrap_err();
    assert_eq!(error.code, WireErrorCode::InvalidAction);
    let plain = lane_reset_requests(&vec![1, 2], None, 2, 0).unwrap();
    assert!(plain.iter().all(|request| request.options.is_none()));
}

fn episode(env_index: i32) -> EpisodeMetadata {
    EpisodeMetadata {
        episode_id: "ep-1".to_string(),
        seed: 9,
        env_index,
        step_count: 12,
        cumulative_reward: 2.5f64.to_bits(),
        terminated: true,
        truncated: false,
        start_timestamp_ns: 1_000_000_000,
        end_timestamp_ns: 1_250_000_000,
        duration_ms: 0,
        final_info: None,
    }
}

#[test]
fn episode_summaries_cross_the_wire() {
    let wire = public_episode_metadata_to_proto(&episode(3));
    assert_eq!(wire.env_index, 3);
    assert_eq!(wire.cumulative_reward, 2.5f64.to_bits());
    let back = proto_episode_metadata_to_public(wire);
    assert_eq!(back.duration_ms, 250);
    assert_eq!(back.env_index, 3);
    assert_eq!(back.episode_id, "ep-1");
    assert_eq!(public_episode_metadata_to_proto(&episode(-2)).env_index, 0);
    let far = WireEpisodeMetadata {
        episode_id: "ep-2".to_string(),
        seed: 0,
        env_index: u32::MAX,
        step_count: 0,
        cumulative_reward: 0,
        terminated: false,
        truncated: true,
        start_timestamp_ns: 5,
        end_timestamp_ns: 1,
        final_info: None,
    };
    let back = proto_episode_metadata_to_public(far);
    assert_eq!(back.env_index, i32::MAX);
    assert_eq!(back.duration_ms, 0);
}

#[test]
fn scalar_envs_round_trip_through_a_vector_of_one() {
    let reset = request::ResetRequest { seed: Some(5), options: None, timeout_ms: 9 };
    let batched = vector_reset_request(reset);
    assert_eq!(batched.seeds, vec![5]);
    assert!(batched.env_indices.is_empty());
    let received = single_reset_request(batched);
    assert_eq!(received.seed, Some(5));
    assert_eq!(received.timeout_ms, 9);

    let step = request::StepRequest { action: Some(SpaceValue::Discrete(2)), timeout_ms: 4 };
    let batched = vector_step_request(step);
    assert_eq!(batched.actions, vec![SpaceValue::Discrete(2)]);
    assert_eq!(single_step_request(batched).action, Some(SpaceValue::Discrete(2)));

    let result = request::StepResult {
        observation: Some(SpaceValue::Discrete(1)),
        reward: 1.5f64.to_bits(),
        terminated: true,
        truncated: false,
        info: None,
    };
    let batched = vector_step_result(result);
    assert_eq!(batched.rewards, vec![1.5f64.to_bits()]);
    assert_eq!(batched.terminated, vec![true]);
    assert!(batched.completed_episodes.is_empty());
    let read = single_step_result(batched);
    assert_eq!(f64::from_bits(read.reward), 1.5);
    assert!(read.terminated && !read.truncated);
    assert_eq!(read.observation, Some(SpaceValue::Discrete(1)));

    let reset_result =
        request::ResetResult { observation: Some(SpaceValue::Discrete(0)), info: None, episode_id: Some("ep".to_string()) };
    let read = single_reset_result(vector_reset_result(reset_result));
    assert_eq!(read.episode_id.as_deref(), Some("ep"));
    assert_eq!(read.observation, Some(SpaceValue::Discrete(0)));
}

#[test]
fn an_empty_vector_step_reads_as_a_zero_reward() {
    let empty = rlmesh::env::types::StepResult {
        observations: vec![],
        rewards: vec![],
        terminated: vec![],
        truncated: vec![],
        info: None,
        completed_episodes: vec![],
        episode_ids: vec![],
    };
    let read = single_step_result(empty);
    assert_eq!(read.reward, 0.0f64.to_bits());
    assert!(read.observation.is_none() && !read.terminated && !read.truncated);
}

#[test]
fn envs_without_lane_resets_refuse_partial_resets() {
    assert!(rlmesh::env::types::check_reset_subset(&vec![]).is_ok());
    match rlmesh::env::types::check_reset_subset(&vec![1, 3]).unwrap_err() {
        EnvRuntimeError::Runtime(message) => {
            assert!(message.starts_with("partial reset of sub-envs [1, 3] is not supported by this environment."));
            assert!(message.contains("`VectorEnv::reset_subset`"));
        }
        other => panic!("unexpected {other:?}"),
    }
}

#[test]
fn a_lane_completes_when_it_terminates_or_truncates() {
    let done = rlmesh::env::wire::completed_lanes(&vec![true, false, false], &vec![false, true, false]);
    assert_eq!(done, vec![true, true, false]);
}
