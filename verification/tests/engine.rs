use std::cell::RefCell;
use std::sync::atomic::{AtomicUsize, Ordering};

use rlmesh::model::engine::{
    annotate_predict_error, bucket_fuses, check_lane_episode_ids, check_stacking, check_episode_rows, check_horizon_doors, dispatch_corners,
    finish_route_frames, fire_episode_ends, plan_buckets, predict_grouped_fused, route_horizon, select_corner,
    stamp_route_horizon,
    serve_fused_bucket, split_by_counts, split_frames, take_prefix, Corner, CornerSupport,
    EpisodeInfo, GroupLane, PredictFn, PredictFrames, PreparedGroup, SpecLessHorizons,
    MAX_EXECUTION_HORIZON,
};
use rlmesh::model::summary::{inputs_summary, value_summary, InputShape};
use rlmesh::{Error, ModelError};

/// Counts corner calls and emits `native_chunk`-frame chunks from the chunk
/// corners (or single numbers from the plain corners). `short` drops one
/// batched output to exercise the lane-count guard.
struct CountingPredict {
    batch: bool,
    chunk: bool,
    chunk_batch: bool,
    native_chunk: usize,
    short: bool,
    predict_calls: AtomicUsize,
    chunk_calls: AtomicUsize,
    batch_calls: AtomicUsize,
    chunk_batch_calls: AtomicUsize,
    batched_ids: RefCell<Vec<Vec<String>>>,
    fail: Option<Error>,
}

impl CountingPredict {
    fn new(batch: bool, chunk: bool, chunk_batch: bool, native_chunk: usize, short: bool) -> Self {
        CountingPredict {
            batch,
            chunk,
            chunk_batch,
            native_chunk,
            short,
            predict_calls: AtomicUsize::new(0),
            chunk_calls: AtomicUsize::new(0),
            batch_calls: AtomicUsize::new(0),
            chunk_batch_calls: AtomicUsize::new(0),
            batched_ids: RefCell::new(Vec::new()),
            fail: None,
        }
    }

    fn native_chunk_value(&self) -> Vec<f64> {
        (0..self.native_chunk).map(|frame| frame as f64).collect()
    }
}

impl PredictFn<f64> for CountingPredict {
    type Observation = usize;

    fn predict_spec_less_chunked(&self, observation: usize, _horizon: u32) -> Result<PredictFrames<f64>, Error> {
        Ok(PredictFrames { actions: vec![0.0; observation], replay: Vec::new() })
    }

    fn predict(&self, _model_input: f64, _episode: Option<&EpisodeInfo>) -> Result<f64, Error> {
        self.predict_calls.fetch_add(1, Ordering::SeqCst);
        Ok(0.0)
    }

    fn has_chunk(&self) -> bool {
        self.chunk
    }

    fn predict_chunk(
        &self,
        _model_input: f64,
        _horizon: u32,
        _episode: Option<&EpisodeInfo>,
    ) -> Result<Option<Vec<f64>>, Error> {
        self.chunk_calls.fetch_add(1, Ordering::SeqCst);
        Ok(Some(self.native_chunk_value()))
    }

    fn has_batch(&self) -> bool {
        self.batch
    }

    fn predict_batch(&self, inputs: Vec<f64>, episodes: &Vec<EpisodeInfo>) -> Result<Vec<f64>, Error> {
        self.batch_calls.fetch_add(1, Ordering::SeqCst);
        self.batched_ids
            .borrow_mut()
            .push(episodes.iter().map(|e| e.episode_id.clone()).collect());
        if let Some(error) = &self.fail {
            return Err(error.clone());
        }
        let keep = inputs.len() - usize::from(self.short);
        Ok(inputs.into_iter().take(keep).collect())
    }

    fn has_chunk_batch(&self) -> bool {
        self.chunk_batch
    }

    fn predict_chunk_batch(
        &self,
        inputs: Vec<f64>,
        _horizon: u32,
        episodes: &Vec<EpisodeInfo>,
    ) -> Result<Vec<Vec<f64>>, Error> {
        self.chunk_batch_calls.fetch_add(1, Ordering::SeqCst);
        self.batched_ids
            .borrow_mut()
            .push(episodes.iter().map(|e| e.episode_id.clone()).collect());
        if let Some(error) = &self.fail {
            return Err(error.clone());
        }
        let keep = inputs.len() - usize::from(self.short);
        Ok((0..keep).map(|_| self.native_chunk_value()).collect())
    }

    fn allow_fusion(&self) -> bool {
        true
    }
}

fn support(predict: &CountingPredict) -> CornerSupport {
    CornerSupport { batch: predict.batch, chunk: predict.chunk, chunk_batch: predict.chunk_batch }
}

fn lanes(count: usize) -> Vec<f64> {
    (0..count).map(|lane| lane as f64).collect()
}

fn episodes(count: usize) -> Vec<EpisodeInfo> {
    (0..count)
        .map(|lane| EpisodeInfo { episode_id: format!("ep{lane}"), seed: Some(lane as i64) })
        .collect()
}

#[test]
fn model_error_gains_the_input_signature() {
    let annotated = annotate_predict_error(
        Error::model("RuntimeError: size mismatch".to_string()),
        "adapter-assembled model input (per lane): {state: float32[7]}; lanes: 1",
    );
    match annotated {
        Error::Model(model) => assert_eq!(
            model.message,
            "RuntimeError: size mismatch\nadapter-assembled model input (per lane): \
             {state: float32[7]}; lanes: 1"
        ),
        other => panic!("expected Error::Model, got {other:?}"),
    }
}

#[test]
fn transport_errors_pass_through_unannotated() {
    let annotated = annotate_predict_error(Error::Connection("reset".to_owned()), "ctx");
    assert_eq!(annotated, Error::Connection("reset".to_owned()));
}

#[test]
fn fused_error_broadcast_preserves_recoverability() {
    let error = Error::model_recoverable("transient OOM, retry".to_string());

    let annotated = annotate_predict_error(error.clone(), "sig: float32[8]; lanes: 2");

    assert!(annotated.is_recoverable(), "recoverable flag must survive");
    match annotated {
        Error::Model(model) => assert_eq!(model.message, "transient OOM, retry\nsig: float32[8]; lanes: 2"),
        other => panic!("expected Error::Model, got {other:?}"),
    }
}

#[test]
fn internal_errors_gain_the_input_signature_too() {
    let annotated = annotate_predict_error(Error::Internal("boom".to_string()), "sig");
    assert_eq!(annotated, Error::Internal("boom\nsig".to_string()));
}

#[test]
fn dispatch_prefers_chunk_batch_and_caps_to_horizon() {
    let counting = CountingPredict::new(true, false, true, 10, false);
    let mut warned = false;
    let frames =
        dispatch_corners(&counting, support(&counting), None, lanes(5), &episodes(5), 4, 5, &mut warned)
            .expect("frames");

    assert_eq!(counting.chunk_batch_calls.load(Ordering::SeqCst), 1);
    assert_eq!(counting.batch_calls.load(Ordering::SeqCst), 0);
    assert_eq!(frames.len(), 5);
    assert!(frames.iter().all(|lane| lane.len() == 4), "each lane keeps the horizon prefix of its native chunk");
}

#[test]
fn dispatch_horizon_one_uses_plain_batch() {
    let counting = CountingPredict::new(true, false, true, 10, false);
    let mut warned = false;
    let frames =
        dispatch_corners(&counting, support(&counting), None, lanes(3), &episodes(3), 1, 3, &mut warned)
            .expect("frames");

    assert_eq!(counting.batch_calls.load(Ordering::SeqCst), 1);
    assert_eq!(counting.chunk_batch_calls.load(Ordering::SeqCst), 0);
    assert!(frames.iter().all(|lane| lane.len() == 1));
}

#[test]
fn dispatch_horizon_gt_one_prefers_per_lane_chunk_over_batch() {
    let counting = CountingPredict::new(true, true, false, 10, false);
    let mut warned = false;
    let frames =
        dispatch_corners(&counting, support(&counting), None, lanes(3), &episodes(3), 4, 3, &mut warned)
            .expect("frames");

    assert_eq!(counting.chunk_calls.load(Ordering::SeqCst), 3);
    assert_eq!(counting.batch_calls.load(Ordering::SeqCst), 0);
    assert!(frames.iter().all(|lane| lane.len() == 4), "per-lane chunks keep the horizon prefix");
}

#[test]
fn dispatch_reports_lane_count_mismatch() {
    let counting = CountingPredict::new(true, false, true, 10, true);
    let mut warned = false;
    let error =
        dispatch_corners(&counting, support(&counting), None, lanes(4), &episodes(4), 4, 4, &mut warned)
            .expect_err("short fails");

    assert!(error.to_text().contains("lanes"), "unexpected error: {error:?}");
    assert_eq!(
        error,
        Error::Model(ModelError {
            message: "predict_chunk_batch returned 3 chunks for 4 lanes".to_string(),
            is_recoverable: false,
        })
    );
}

#[test]
fn batched_corners_receive_row_aligned_episodes() {
    let counting = CountingPredict::new(true, false, true, 10, false);
    let mut warned = false;
    dispatch_corners(&counting, support(&counting), None, lanes(3), &episodes(3), 4, 3, &mut warned)
        .expect("chunk batch");
    dispatch_corners(&counting, support(&counting), None, lanes(2), &episodes(2), 1, 2, &mut warned)
        .expect("batch");

    assert_eq!(
        *counting.batched_ids.borrow(),
        vec![
            vec!["ep0".to_string(), "ep1".to_string(), "ep2".to_string()],
            vec!["ep0".to_string(), "ep1".to_string()],
        ]
    );
}

#[test]
fn dispatch_rejects_episode_rows_that_do_not_match_the_lanes() {
    let counting = CountingPredict::new(true, false, false, 10, false);
    let mut warned = false;
    let error =
        dispatch_corners(&counting, support(&counting), None, lanes(3), &episodes(2), 1, 3, &mut warned)
            .expect_err("row-count mismatch fails");

    assert!(error.to_text().contains("episode rows"), "unexpected error: {error:?}");
    assert_eq!(counting.batch_calls.load(Ordering::SeqCst), 0);
}

#[test]
fn dispatch_per_lane_loop_calls_predict_per_lane() {
    let counting = CountingPredict::new(false, false, false, 10, false);
    let mut warned = false;
    let frames =
        dispatch_corners(&counting, support(&counting), None, lanes(3), &episodes(3), 1, 3, &mut warned)
            .expect("frames");
    assert_eq!(counting.predict_calls.load(Ordering::SeqCst), 3);
    assert_eq!(frames, vec![vec![0.0], vec![0.0], vec![0.0]]);
}

#[test]
fn bucket_fuses_only_when_the_direct_corner_is_batched() {
    let chunk_batch = support(&CountingPredict::new(true, true, true, 10, false));
    assert!(bucket_fuses(chunk_batch, 4));
    assert!(bucket_fuses(chunk_batch, 1));

    let chunk_and_batch = support(&CountingPredict::new(true, true, false, 10, false));
    assert!(!bucket_fuses(chunk_and_batch, 4), "direct picks the per-lane chunk corner; fusing would drop chunking");
    assert!(bucket_fuses(chunk_and_batch, 1));

    let batch_only = support(&CountingPredict::new(true, false, false, 10, false));
    assert!(bucket_fuses(batch_only, 4), "direct already degrades to single-step batch (warned at configure)");

    let chunk_batch_only = support(&CountingPredict::new(false, false, true, 10, false));
    assert!(!bucket_fuses(chunk_batch_only, 1), "direct picks the per-lane predict loop at horizon 1");
    assert!(bucket_fuses(chunk_batch_only, 4));

    let per_lane_only = support(&CountingPredict::new(false, false, false, 10, false));
    assert!(!bucket_fuses(per_lane_only, 1));
    assert!(!bucket_fuses(per_lane_only, 4));
}

#[test]
fn corner_selection_follows_the_precedence_table() {
    let all = CornerSupport { batch: true, chunk: true, chunk_batch: true };
    assert_eq!(select_corner(all, 4), Corner::ChunkBatch);
    assert_eq!(select_corner(all, 1), Corner::Batch);
    let chunk_only = CornerSupport { batch: false, chunk: true, chunk_batch: false };
    assert_eq!(select_corner(chunk_only, 2), Corner::Chunk);
    assert_eq!(select_corner(chunk_only, 1), Corner::PerLane);
}

#[test]
fn the_short_chunk_warning_latches_once_per_endpoint() {
    let mut warned = false;
    let frames = || vec![0.0f64, 1.0];
    assert_eq!(take_prefix(frames(), 6, None, &mut warned).expect("elastic").len(), 2);
    assert!(warned, "the first short chunk warns");
    assert_eq!(
        take_prefix(frames(), 6, None, &mut warned).expect("elastic").len(),
        2,
        "a latched flag must not change what is replayed"
    );
    assert!(warned);
}

#[test]
fn a_declared_chunk_keeps_its_horizon_prefix() {
    let mut warned = false;
    let frames: Vec<u32> = (0..10).collect();
    assert_eq!(take_prefix(frames, 4, Some(10), &mut warned).unwrap(), vec![0, 1, 2, 3]);
    assert!(!warned);
}

#[test]
fn a_declared_model_that_slices_its_own_chunk_fails() {
    let mut warned = false;
    let error = take_prefix(vec![1u8, 2, 3], 3, Some(8), &mut warned).unwrap_err();
    assert_eq!(
        error.to_text(),
        "model error: model declares native_chunk=8 but its chunk corner returned 3 frames at \
         execution_horizon=3: return the WHOLE native chunk and let the runtime execute its prefix \
         (do not slice to the horizon), or drop the declaration"
    );
}

#[test]
fn the_horizon_doors() {
    let chunky = CornerSupport { batch: false, chunk: true, chunk_batch: false };
    let plain = CornerSupport { batch: true, chunk: false, chunk_batch: false };
    assert!(check_horizon_doors(MAX_EXECUTION_HORIZON, None, plain).is_ok());
    let over = check_horizon_doors(MAX_EXECUTION_HORIZON + 1, None, plain).unwrap_err();
    assert_eq!(over.to_text(), "model error: runtime pinned execution_horizon=1025, over the 1024 bound");
    let cornerless = check_horizon_doors(4, Some(8), plain).unwrap_err();
    assert!(cornerless.to_text().contains("native_chunk=8 but defines no chunk corner"));
    let beyond = check_horizon_doors(9, Some(8), chunky).unwrap_err();
    assert!(beyond.to_text().contains("Lower the horizon to at most 8"));
    assert!(check_horizon_doors(8, Some(8), chunky).is_ok());
}

#[test]
fn episode_rows_must_match_the_lanes() {
    assert!(check_episode_rows(3, 3).is_ok());
    assert_eq!(
        check_episode_rows(2, 3).unwrap_err().to_text(),
        "model error: predict carries 2 episode rows for 3 lanes; episode identity is row-aligned with the observation"
    );
}

#[test]
fn split_frames_peels_frame_zero_and_transposes_to_the_shortest_lane() {
    let (actions, replay) = split_frames(vec![vec![1, 2, 3, 4], vec![10, 20, 30]]).unwrap();
    assert_eq!(actions, vec![1, 10]);
    assert_eq!(replay, vec![vec![2, 20], vec![3, 30]]);
    let finished = finish_route_frames(vec![vec![7], vec![8]]).unwrap();
    assert_eq!(finished, PredictFrames { actions: vec![7, 8], replay: Vec::new() });
    let empty = split_frames::<u8>(vec![vec![1], vec![]]).unwrap_err();
    assert_eq!(empty.to_text(), "model error: a chunked model returned an empty action chunk");
}

#[test]
fn split_by_counts_concatenates_back_to_the_whole() {
    let parts = split_by_counts(vec![1, 2, 3, 4, 5, 6], &vec![2, 0, 3, 1]);
    assert_eq!(parts, vec![vec![1, 2], vec![], vec![3, 4, 5], vec![6]]);
    let whole: Vec<i32> = parts.into_iter().flatten().collect();
    assert_eq!(whole, vec![1, 2, 3, 4, 5, 6]);
}

#[test]
fn plan_buckets_groups_by_clamped_horizon_in_ascending_order() {
    let buckets = plan_buckets(&vec![(0, 4), (1, 0), (2, 1), (3, 4), (4, 2)]);
    let planned: Vec<(u32, Vec<usize>)> = buckets.into_iter().map(|b| (b.horizon, b.groups)).collect();
    assert_eq!(planned, vec![(1, vec![1, 2]), (2, vec![4]), (4, vec![0, 3])]);
    assert_eq!(route_horizon(0), 1);
    assert_eq!(route_horizon(5), 5);
}

fn group(inputs: Vec<f64>, horizon: u32, summary: &str, prefix: &str) -> PreparedGroup<f64> {
    let count = inputs.len();
    PreparedGroup {
        inputs,
        episodes: (0..count)
            .map(|lane| EpisodeInfo { episode_id: format!("{prefix}-ep{lane}"), seed: None })
            .collect(),
        horizon,
        num_envs: count,
        summary: summary.to_string(),
    }
}

#[test]
fn fused_grouped_predict_runs_one_forward_and_splits_actions_per_group() {
    let counting = CountingPredict::new(true, false, false, 1, false);
    let mut warned = false;
    let results = predict_grouped_fused(
        &counting,
        vec![
            GroupLane::Prepared(group(vec![1.0, 2.0], 1, "a", "env-a")),
            GroupLane::Prepared(group(vec![3.0], 1, "b", "env-b")),
        ],
        &mut warned,
    );
    assert_eq!(counting.batch_calls.load(Ordering::SeqCst), 1, "one fused forward");
    assert_eq!(
        *counting.batched_ids.borrow(),
        vec![vec!["env-a-ep0".to_string(), "env-a-ep1".to_string(), "env-b-ep0".to_string()]]
    );
    let actions: Vec<Vec<f64>> = results.into_iter().map(|r| r.unwrap().actions).collect();
    assert_eq!(actions, vec![vec![1.0, 2.0], vec![3.0]]);
}

#[test]
fn fused_failure_reports_recoverable_error_with_each_groups_own_signature() {
    let mut counting = CountingPredict::new(true, false, false, 1, false);
    counting.fail = Some(Error::model_recoverable("transient OOM".to_string()));
    let mut warned = false;
    let results = serve_fused_bucket(
        &counting,
        support(&counting),
        None,
        vec![group(vec![1.0], 1, "sig-a", "a"), group(vec![2.0], 1, "sig-b", "b")],
        1,
        &mut warned,
    );
    let errors: Vec<Error> = results.into_iter().map(|r| r.unwrap_err()).collect();
    assert_eq!(
        errors,
        vec![
            Error::Model(ModelError { message: "transient OOM\nsig-a".to_string(), is_recoverable: true }),
            Error::Model(ModelError { message: "transient OOM\nsig-b".to_string(), is_recoverable: true }),
        ]
    );
}

#[test]
fn grouped_predict_serves_spec_less_and_failed_groups_in_place() {
    let counting = CountingPredict::new(false, false, false, 1, false);
    let mut warned = false;
    let results = predict_grouped_fused(
        &counting,
        vec![
            GroupLane::SpecLess { observation: 2, horizon: 1 },
            GroupLane::Failed(Error::model("no adapter".to_string())),
            GroupLane::Prepared(group(vec![5.0], 1, "c", "env-c")),
        ],
        &mut warned,
    );
    assert_eq!(results.len(), 3);
    assert_eq!(results[0].as_ref().unwrap().actions, vec![0.0, 0.0]);
    assert_eq!(results[1].as_ref().unwrap_err(), &Error::model("no adapter".to_string()));
    assert_eq!(results[2].as_ref().unwrap().actions, vec![0.0], "per-lane predict serves a non-fusing bucket");
}

#[test]
fn spec_less_horizons_pin_and_clear() {
    let mut horizons = SpecLessHorizons::new();
    assert_eq!(horizons.horizon("env"), 1);
    horizons.pin("env", 8);
    assert_eq!(horizons.horizon("env"), 8);
    horizons.pin("env", 0);
    assert_eq!(horizons.horizon("env"), 1);
    horizons.pin("env", 3);
    horizons.release("env");
    assert_eq!(horizons.horizon("env"), 1);
}

#[test]
fn frame_stacking_refuses_chunking() {
    assert!(check_stacking(1, Some(("rgb", 4))).is_ok());
    assert!(check_stacking(8, None).is_ok());
    assert_eq!(
        check_stacking(8, Some(("rgb", 4))).unwrap_err(),
        Error::model(
            "frame-stacking (input 'rgb' stack=4) cannot be combined with action chunking (execution_horizon=8): the engine assembles observations once per chunk, so the frame window would hold only decision-point frames. Use stack=1 or execution_horizon=1."
                .to_string()
        )
    );
}

#[test]
fn endpoint_duration_is_measured_from_the_start() {
    let started = std::time::Instant::now();
    while started.elapsed() < std::time::Duration::from_millis(2) {}
    let total = rlmesh::model::wire::model_endpoint_total_ns(started);
    assert!(total >= 2_000_000);
}

fn sample_input() -> InputShape {
    InputShape::Named(vec![
        ("image".to_owned(), InputShape::Tensor { dtype: "uint8".to_owned(), shape: vec![3, 4, 4] }),
        ("state".to_owned(), InputShape::Tensor { dtype: "float32".to_owned(), shape: vec![7] }),
    ])
}

#[test]
fn inputs_summary_names_keys_dtypes_shapes_and_lanes() {
    let summary = inputs_summary(&vec![sample_input(), sample_input()]);
    assert_eq!(
        summary,
        "adapter-assembled model input (per lane): {image: uint8[3, 4, 4], state: float32[7]}; lanes: 2"
    );
}

#[test]
fn value_summaries_cover_every_shape() {
    assert_eq!(inputs_summary(&vec![]), "adapter-assembled model input: (no lanes)");
    assert_eq!(value_summary(&InputShape::Text { len: 3 }), "text(len=3)");
    assert_eq!(value_summary(&InputShape::Bytes { len: 4 }), "bytes(len=4)");
    assert_eq!(value_summary(&InputShape::Number), "number");
    assert_eq!(value_summary(&InputShape::List(vec![])), "list(len=0)");
    assert_eq!(
        value_summary(&InputShape::List(vec![InputShape::Number, InputShape::Text { len: 1 }])),
        "list(len=2, first=number)"
    );
    assert_eq!(value_summary(&InputShape::Tensor { dtype: "bool".to_owned(), shape: vec![] }), "bool[]");
    assert_eq!(value_summary(&InputShape::Named(vec![])), "{}");
}

#[test]
fn every_lane_needs_an_episode_id() {
    let ids = vec!["a".to_string(), String::new()];
    assert!(check_lane_episode_ids(&ids, 1, 1).is_ok());
    assert_eq!(
        check_lane_episode_ids(&ids, 2, 2).unwrap_err(),
        Error::model(
            "predict request lane 1 has no episode_id (num_envs=2, episodes=2); every lane must carry a non-empty episode_id"
                .to_string()
        )
    );
    assert_eq!(
        check_lane_episode_ids(&vec!["a".to_string()], 3, 3).unwrap_err(),
        Error::model(
            "predict request lane 1 has no episode_id (num_envs=3, episodes=1); every lane must carry a non-empty episode_id"
                .to_string()
        )
    );
}

#[test]
fn dispatched_chunk_lanes_are_the_models_chunk_prefixes() {
    let counting = CountingPredict::new(true, false, true, 10, false);
    let mut warned = false;
    let frames =
        dispatch_corners(&counting, support(&counting), None, lanes(2), &episodes(2), 4, 2, &mut warned)
            .expect("frames");
    assert_eq!(frames, vec![vec![0.0, 1.0, 2.0, 3.0], vec![0.0, 1.0, 2.0, 3.0]]);
    assert!(!warned, "a chunk longer than the horizon is no short chunk");
}

#[test]
fn dispatched_batch_lanes_are_the_models_actions() {
    let counting = CountingPredict::new(true, false, false, 1, false);
    let mut warned = false;
    let frames = dispatch_corners(
        &counting,
        support(&counting),
        None,
        vec![7.0, 8.0, 9.0],
        &episodes(3),
        1,
        3,
        &mut warned,
    )
    .expect("frames");
    assert_eq!(frames, vec![vec![7.0], vec![8.0], vec![9.0]], "each lane is the model's own action, not a constant");
}

#[test]
fn grouped_predict_serves_spec_less_groups_per_group() {
    let counting = CountingPredict::new(true, false, true, 10, false);
    let mut warned = false;
    let results = predict_grouped_fused(
        &counting,
        vec![
            GroupLane::SpecLess { observation: 1, horizon: 1 },
            GroupLane::SpecLess { observation: 1, horizon: 1 },
            GroupLane::SpecLess { observation: 1, horizon: 1 },
        ],
        &mut warned,
    );
    assert_eq!(results.len(), 3);
    for result in &results {
        let frames = result.as_ref().expect("spec-less frames");
        assert_eq!(frames.actions.len(), 1);
        assert!(frames.replay.is_empty());
    }
    assert_eq!(counting.batch_calls.load(Ordering::SeqCst), 0);
    assert_eq!(counting.chunk_batch_calls.load(Ordering::SeqCst), 0);
}

#[test]
fn grouped_predict_buckets_by_horizon_and_keeps_group_order() {
    let counting = CountingPredict::new(true, false, true, 6, false);
    let mut warned = false;
    let results = predict_grouped_fused(
        &counting,
        vec![
            GroupLane::Prepared(group(vec![1.0], 4, "a", "env-a")),
            GroupLane::Prepared(group(vec![2.0, 3.0], 1, "b", "env-b")),
            GroupLane::Prepared(group(vec![4.0], 4, "c", "env-c")),
        ],
        &mut warned,
    );
    assert_eq!(counting.chunk_batch_calls.load(Ordering::SeqCst), 1, "the horizon-4 bucket fuses into one chunk call");
    assert_eq!(counting.batch_calls.load(Ordering::SeqCst), 1, "the horizon-1 bucket fuses into one batch call");
    let first = results[0].as_ref().unwrap();
    assert_eq!(first.actions, vec![0.0]);
    assert_eq!(first.replay, vec![vec![1.0], vec![2.0], vec![3.0]]);
    assert_eq!(results[1].as_ref().unwrap().actions, vec![2.0, 3.0]);
    assert_eq!(results[2].as_ref().unwrap().replay.len(), 3);
}

struct EpisodeHooks {
    ended: RefCell<Vec<String>>,
}

impl PredictFn<f64> for EpisodeHooks {
    type Observation = usize;

    fn predict_spec_less_chunked(&self, observation: usize, _horizon: u32) -> Result<PredictFrames<f64>, Error> {
        Ok(PredictFrames { actions: vec![0.0; observation], replay: Vec::new() })
    }

    fn predict(&self, model_input: f64, _episode: Option<&EpisodeInfo>) -> Result<f64, Error> {
        Ok(model_input)
    }

    fn on_episode_end(&self, episode_id: &str) -> Result<(), Error> {
        if episode_id == "bad" {
            return Err(Error::model("hook failed".to_string()));
        }
        self.ended.borrow_mut().push(episode_id.to_string());
        Ok(())
    }
}

#[test]
fn episode_end_hooks_fire_in_order_and_stop_at_the_first_failure() {
    let hooks = EpisodeHooks { ended: RefCell::new(Vec::new()) };
    fire_episode_ends(&hooks, &vec!["a".to_string(), "b".to_string()]).unwrap();
    assert_eq!(*hooks.ended.borrow(), vec!["a".to_string(), "b".to_string()]);
    let error = fire_episode_ends(&hooks, &vec!["c".to_string(), "bad".to_string(), "d".to_string()]).unwrap_err();
    assert_eq!(error, Error::model("hook failed".to_string()));
    assert_eq!(*hooks.ended.borrow(), vec!["a".to_string(), "b".to_string(), "c".to_string()]);
    fire_episode_ends(&hooks, &vec![]).unwrap();
    assert_eq!(hooks.ended.borrow().len(), 3, "no id fires nothing");
    assert!(hooks.on_close().is_ok());
}

#[test]
fn a_route_is_stamped_only_after_every_resolve_check() {
    let chunky = CornerSupport { batch: false, chunk: true, chunk_batch: false };
    assert_eq!(stamp_route_horizon(0, None, chunky, None).unwrap(), 1);
    assert_eq!(stamp_route_horizon(8, Some(8), chunky, None).unwrap(), 8);
    assert_eq!(
        stamp_route_horizon(9, Some(8), chunky, None).unwrap_err(),
        Error::model(
            "runtime pinned execution_horizon=9 but the model declares native_chunk=8: it cannot produce that many actions per predict. Lower the horizon to at most 8"
                .to_string()
        )
    );
    assert!(stamp_route_horizon(4, None, chunky, Some(("rgb", 2))).unwrap_err().to_text().contains("frame-stacking"));
    assert_eq!(stamp_route_horizon(1, None, chunky, Some(("rgb", 2))).unwrap(), 1);
}

#[test]
fn a_spec_less_route_is_pinned_only_after_the_horizon_checks() {
    let plain = CornerSupport { batch: false, chunk: false, chunk_batch: false };
    let mut horizons = SpecLessHorizons::new();
    horizons.resolve("env", 4, None, plain).unwrap();
    assert_eq!(horizons.horizon("env"), 4);
    let refused = horizons.resolve("env", 2, Some(2), plain).unwrap_err();
    assert!(refused.to_text().contains("defines no chunk corner"));
    assert_eq!(horizons.horizon("env"), 4, "a refused resolve keeps the earlier pin");
    assert!(horizons.resolve("other", MAX_EXECUTION_HORIZON + 1, None, plain).is_err());
    assert_eq!(horizons.horizon("other"), 1);
    horizons.resolve("env", 1, None, plain).unwrap();
    assert_eq!(horizons.horizon("env"), 1);
}

fn chunky() -> CornerSupport {
    CornerSupport { batch: false, chunk: true, chunk_batch: false }
}

/// Total per-step frames one single-lane predict emits (frame 0 plus the
/// replay tail) for a chunk model returning `chunk` frames.
fn declared_frame_count(chunk: usize, declared: Option<u32>, horizon: u32) -> Result<usize, Error> {
    let model = CountingPredict::new(false, true, false, chunk, false);
    let mut warned = false;
    let lanes = dispatch_corners(&model, support(&model), declared, vec![1.0], &episodes(1), horizon, 1, &mut warned)?;
    let frames = finish_route_frames(lanes)?;
    Ok(1 + frames.replay.len())
}

#[test]
fn resolve_refuses_a_horizon_over_the_bound() {
    let error = stamp_route_horizon(MAX_EXECUTION_HORIZON + 1, None, chunky(), None).expect_err("over the bound");
    assert!(error.to_text().contains(&MAX_EXECUTION_HORIZON.to_string()), "the bound should name itself: {error:?}");
}

#[test]
fn resolve_accepts_the_horizon_bound_exactly() {
    assert_eq!(stamp_route_horizon(MAX_EXECUTION_HORIZON, None, chunky(), None).expect("the bound itself resolves"), MAX_EXECUTION_HORIZON);
}

#[test]
fn the_horizon_doors_guard_the_spec_less_branch_too() {
    let mut horizons = SpecLessHorizons::new();
    horizons.resolve("env-h", 8, Some(6), chunky()).expect_err("a spec-less route is bound by the same doors");
    assert_eq!(horizons.horizon("env-h"), 1);
}

#[test]
fn resolve_refuses_a_declared_chunk_with_no_chunk_corner() {
    let cornerless = CornerSupport { batch: false, chunk: false, chunk_batch: false };
    let error = stamp_route_horizon(1, Some(6), cornerless, None).expect_err("declared K, no corner");
    assert!(error.to_text().contains("no chunk corner"), "unexpected error: {error:?}");
}

#[test]
fn resolve_refuses_a_horizon_over_the_declared_chunk() {
    let error = stamp_route_horizon(8, Some(6), chunky(), None).expect_err("h > K");
    assert!(error.to_text().contains("native_chunk=6"), "unexpected error: {error:?}");
}

#[test]
fn a_declared_model_replays_the_horizon_prefix_of_its_whole_chunk() {
    assert_eq!(declared_frame_count(6, Some(6), 4).unwrap(), 4);
}

#[test]
fn a_declared_model_at_the_full_horizon_replays_every_frame() {
    assert_eq!(declared_frame_count(6, Some(6), 6).unwrap(), 6);
}

#[test]
fn a_declared_model_that_slices_its_own_chunk_fails_the_predict() {
    let message = declared_frame_count(4, Some(6), 4).expect_err("a declared K is exact").to_text();
    assert!(message.contains("native_chunk=6") && message.contains("4"), "the error should name both lengths: {message}");
}

#[test]
fn an_undeclared_short_chunk_replays_what_there_is() {
    assert_eq!(declared_frame_count(3, None, 6).unwrap(), 3);
}
