use rlmesh::env::lanes::{check_lane_contracts, check_lane_index, lane_gone_error, lane_unanswered_error};
use rlmesh::env::wire::EnvRuntimeError;
use rlmesh::spaces::{
    same_env_contract, same_map, same_value, DType, EnvContract, MetaMap, MetaValue, SpaceKind, SpaceSpec,
};

fn byte_box(high: f64) -> SpaceSpec {
    SpaceSpec { kind: SpaceKind::Box { low: 0.0f64.to_bits(), high: high.to_bits(), shape: vec![1], dtype: DType::Uint8 } }
}

fn sleepy_contract() -> EnvContract {
    EnvContract {
        id: "SleepyEnv-v0".to_string(),
        autoreset_mode: Default::default(),
        observation_space: Some(byte_box(255.0)),
        action_space: Some(byte_box(1.0)),
        metadata: None,
        render_mode: String::new(),
        num_envs: 1,
    }
}

fn message(error: EnvRuntimeError) -> String {
    match error {
        EnvRuntimeError::Runtime(message) => message,
        other => panic!("unexpected {other:?}"),
    }
}

#[test]
fn lanes_must_agree_with_lane_0_on_the_env_contract() {
    let mut odd = sleepy_contract();
    let mut tags = MetaMap::new();
    tags.insert("action_role".to_string(), MetaValue::String("delta".to_string()));
    odd.metadata = Some(tags);
    let err = check_lane_contracts(&vec![sleepy_contract(), odd]).expect_err("mismatched lanes must be refused");
    let text = message(err);
    assert!(text.contains("lane 1 disagrees with lane 0"), "{text}");
}

#[test]
fn matching_lanes_are_accepted_and_the_first_mismatch_is_named() {
    assert!(check_lane_contracts(&vec![sleepy_contract()]).is_ok());
    assert!(check_lane_contracts(&vec![sleepy_contract(), sleepy_contract(), sleepy_contract()]).is_ok());
    let mut wider = sleepy_contract();
    wider.action_space = Some(byte_box(2.0));
    let mut renamed = sleepy_contract();
    renamed.id = "Other-v0".to_string();
    let err = check_lane_contracts(&vec![sleepy_contract(), sleepy_contract(), wider, renamed]).unwrap_err();
    assert_eq!(
        message(err),
        "lane 2 disagrees with lane 0 on the env contract (spaces, metadata, tags): every lane of one endpoint must be the same make()"
    );
}

#[test]
fn contract_equality_reads_every_field() {
    assert!(same_env_contract(&sleepy_contract(), &sleepy_contract()));
    let mut rendered = sleepy_contract();
    rendered.render_mode = "rgb_array".to_string();
    assert!(!same_env_contract(&sleepy_contract(), &rendered));
    let mut wide = sleepy_contract();
    wide.num_envs = 2;
    assert!(!same_env_contract(&sleepy_contract(), &wide));
    let mut no_obs = sleepy_contract();
    no_obs.observation_space = None;
    assert!(!same_env_contract(&sleepy_contract(), &no_obs));
}

#[test]
fn metadata_values_compare_deeply_and_maps_by_key() {
    let list = |items: Vec<i64>| MetaValue::List(items.into_iter().map(MetaValue::Int).collect());
    assert!(same_value(&list(vec![1, 2]), &list(vec![1, 2])));
    assert!(!same_value(&list(vec![1, 2]), &list(vec![2, 1])));
    assert!(!same_value(&list(vec![1]), &list(vec![1, 1])));
    assert!(!same_value(&MetaValue::Int(1), &MetaValue::Bool(true)));
    let mut a = MetaMap::new();
    a.insert("x".to_string(), MetaValue::Float(1.5f64.to_bits()));
    a.insert("y".to_string(), MetaValue::Null);
    let mut b = MetaMap::new();
    b.insert("x".to_string(), MetaValue::Float(1.5f64.to_bits()));
    b.insert("y".to_string(), MetaValue::Null);
    assert!(same_map(&a, &b));
    assert!(same_value(&MetaValue::Dict(a), &MetaValue::Dict(b)));
    let mut c = MetaMap::new();
    c.insert("y".to_string(), MetaValue::Null);
    c.insert("x".to_string(), MetaValue::Float(1.5f64.to_bits()));
    let mut d = MetaMap::new();
    d.insert("x".to_string(), MetaValue::Float(1.5f64.to_bits()));
    d.insert("y".to_string(), MetaValue::Null);
    assert!(same_map(&c, &d));
    assert_eq!(c.entries[0].0, "x");
    d.insert("z".to_string(), MetaValue::Bool(false));
    assert!(!same_map(&c, &d));
}

#[test]
fn lane_requests_name_a_running_lane() {
    assert!(check_lane_index(1, 2).is_ok());
    assert_eq!(message(check_lane_index(2, 2).unwrap_err()), "lane 2 out of range for 2 lanes");
    assert_eq!(message(lane_gone_error(3)), "lane 3 is no longer running");
    assert_eq!(message(lane_unanswered_error(0)), "lane 0 stopped before answering (its thread panicked?)");
}
