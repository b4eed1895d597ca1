//! Decisions of the vectorized model engine: which predict corner serves a
//! route, when a grouped predict may fuse, the resolve-time horizon checks,
//! how a native action chunk becomes the executed frames, and how a fused
//! batch is bucketed and split back per group.

use vstd::hash_map::StringHashMap;
use vstd::prelude::*;

use crate::error::{error_text, spec_is_recoverable, Error, ModelError};
use crate::text::{decimal, number_text};

verus! {

/// The largest execution horizon the runtime may pin on a route.
pub const MAX_EXECUTION_HORIZON: u32 = 1024;

/// Which predict corners a model defines.
#[derive(Debug, Clone, Copy, PartialEq, Eq)]
pub struct CornerSupport {
    /// The batched corner: N lane inputs to N actions in one call.
    pub batch: bool,
    /// The single-sample chunk corner: one input to a chunk of actions.
    pub chunk: bool,
    /// The batched chunk corner: N lane inputs to N chunks in one call.
    pub chunk_batch: bool,
}

/// The model function that serves a predict.
#[derive(Debug, Clone, Copy, PartialEq, Eq)]
pub enum Corner {
    /// One batched chunk call for the whole vector.
    ChunkBatch,
    /// One chunk call per lane.
    Chunk,
    /// One batched single-action call for the whole vector.
    Batch,
    /// One single-action call per lane.
    PerLane,
}

/// The corner a direct predict at `horizon` dispatches to: a batched corner
/// over the per-lane loop, and a chunk corner when the horizon exceeds one.
pub open spec fn spec_select_corner(support: CornerSupport, horizon: u32) -> Corner {
    if horizon > 1 && support.chunk_batch {
        Corner::ChunkBatch
    } else if horizon > 1 && support.chunk {
        Corner::Chunk
    } else if support.batch {
        Corner::Batch
    } else {
        Corner::PerLane
    }
}

/// Whether a corner serves the whole vector in one call.
pub open spec fn is_batched(corner: Corner) -> bool {
    corner == Corner::ChunkBatch || corner == Corner::Batch
}

/// Whether a bucket of grouped lanes at `horizon` may fuse into one batched call.
pub open spec fn spec_bucket_fuses(support: CornerSupport, horizon: u32) -> bool {
    if horizon > 1 {
        support.chunk_batch || (!support.chunk && support.batch)
    } else {
        support.batch
    }
}

/// The corner a direct predict at `horizon` dispatches to.
pub fn select_corner(support: CornerSupport, horizon: u32) -> (corner: Corner)
    ensures
        corner == spec_select_corner(support, horizon),
{
    if horizon > 1 && support.chunk_batch {
        Corner::ChunkBatch
    } else if horizon > 1 && support.chunk {
        Corner::Chunk
    } else if support.batch {
        Corner::Batch
    } else {
        Corner::PerLane
    }
}

/// Whether a bucket of grouped lanes at `horizon` may fuse into one batched
/// corner call: only when that batched corner is the one a direct predict
/// picks.
pub fn bucket_fuses(support: CornerSupport, horizon: u32) -> (fuses: bool)
    ensures
        fuses == spec_bucket_fuses(support, horizon),
{
    if horizon > 1 {
        support.chunk_batch || (!support.chunk && support.batch)
    } else {
        support.batch
    }
}

/// Grouping never changes which model function runs: a bucket fuses exactly
/// when the corner a direct predict of the same lanes would pick is a batched
/// one.
pub proof fn lemma_fusion_keeps_the_direct_corner(support: CornerSupport, horizon: u32)
    ensures
        spec_bucket_fuses(support, horizon) <==> is_batched(spec_select_corner(support, horizon)),
{
}

/// Whether a grouped predict of `group_count` groups may take the fused path:
/// the model permits fusion, defines a batched corner, and there is more than
/// one group.
pub fn grouped_fusion_enabled(allow_fusion: bool, support: CornerSupport, group_count: usize) -> (enabled:
    bool)
    ensures
        enabled == (allow_fusion && (support.chunk_batch || support.batch) && group_count > 1),
{
    allow_fusion && (support.chunk_batch || support.batch) && group_count > 1
}

/// The message of a horizon past [`MAX_EXECUTION_HORIZON`].
pub open spec fn horizon_bound_text(horizon: u32) -> Seq<char> {
    "runtime pinned execution_horizon="@ + decimal(horizon as nat) + ", over the "@ + decimal(
        MAX_EXECUTION_HORIZON as nat,
    ) + " bound"@
}

/// The message of a declared native chunk with no chunk corner.
pub open spec fn cornerless_chunk_text(native: u32) -> Seq<char> {
    "model declares native_chunk="@ + decimal(native as nat)
        + " but defines no chunk corner (predict_chunk / predict_chunk_batch); drop the declaration or add the corner"@
}

/// The message of a horizon beyond the declared native chunk.
pub open spec fn horizon_over_chunk_text(horizon: u32, native: u32) -> Seq<char> {
    "runtime pinned execution_horizon="@ + decimal(horizon as nat)
        + " but the model declares native_chunk="@ + decimal(native as nat)
        + ": it cannot produce that many actions per predict. Lower the horizon to at most "@
        + decimal(native as nat)
}

/// Whether `error` is a non-recoverable model error with message `text`.
pub open spec fn is_model_error(error: Error, text: Seq<char>) -> bool {
    error matches Error::Model(model) && !model.is_recoverable && model.message@ == text
}

/// What the resolve-time horizon checks give: a horizon past the bound, a
/// declared native chunk on a model with no chunk corner, and a horizon past
/// the declared chunk are refused, in that order; anything else passes.
pub open spec fn doors_outcome(
    execution_horizon: u32,
    native_chunk: Option<u32>,
    support: CornerSupport,
    checked: Result<(), Error>,
) -> bool {
    if execution_horizon > MAX_EXECUTION_HORIZON {
        checked is Err && is_model_error(checked->Err_0, horizon_bound_text(execution_horizon))
    } else {
        match native_chunk {
            None => checked is Ok,
            Some(native) => if !support.chunk && !support.chunk_batch {
                checked is Err && is_model_error(checked->Err_0, cornerless_chunk_text(native))
            } else if execution_horizon > native {
                checked is Err && is_model_error(checked->Err_0, horizon_over_chunk_text(execution_horizon, native))
            } else {
                checked is Ok
            },
        }
    }
}

/// The resolve-time horizon checks: a horizon within the bound, a declared
/// native chunk only on a model with a chunk corner, and a horizon the
/// declared chunk covers.
pub fn check_horizon_doors(
    execution_horizon: u32,
    native_chunk: Option<u32>,
    support: CornerSupport,
) -> (checked: Result<(), Error>)
    ensures
        doors_outcome(execution_horizon, native_chunk, support, checked),
{
    if execution_horizon > MAX_EXECUTION_HORIZON {
        let mut message = String::from_str("runtime pinned execution_horizon=");
        message.append(number_text(execution_horizon as u64).as_str());
        message.append(", over the ");
        message.append(number_text(MAX_EXECUTION_HORIZON as u64).as_str());
        message.append(" bound");
        return Err(Error::model(message));
    }
    match native_chunk {
        None => Ok(()),
        Some(native) => {
            if !support.chunk && !support.chunk_batch {
                let mut message = String::from_str("model declares native_chunk=");
                message.append(number_text(native as u64).as_str());
                message.append(
                    " but defines no chunk corner (predict_chunk / predict_chunk_batch); drop the declaration or add the corner",
                );
                return Err(Error::model(message));
            }
            if execution_horizon > native {
                let native_text = number_text(native as u64);
                let mut message = String::from_str("runtime pinned execution_horizon=");
                message.append(number_text(execution_horizon as u64).as_str());
                message.append(" but the model declares native_chunk=");
                message.append(native_text.as_str());
                message.append(
                    ": it cannot produce that many actions per predict. Lower the horizon to at most ",
                );
                message.append(native_text.as_str());
                return Err(Error::model(message));
            }
            Ok(())
        },
    }
}

/// The message of a declared model whose chunk is not its declared length.
pub open spec fn sliced_chunk_text(native: u32, frames: nat, horizon: u32) -> Seq<char> {
    "model declares native_chunk="@ + decimal(native as nat) + " but its chunk corner returned "@
        + decimal(frames) + " frames at execution_horizon="@ + decimal(horizon as nat)
        + ": return the WHOLE native chunk and let the runtime execute its prefix (do not slice to the horizon), or drop the declaration"@
}

/// The frames of `frames` the runtime executes at `horizon`.
pub open spec fn executed_prefix<T>(frames: Seq<T>, horizon: u32) -> Seq<T> {
    if frames.len() <= horizon {
        frames
    } else {
        frames.take(horizon as int)
    }
}

/// Cap one lane's split chunk to the runtime's execution prefix.
///
/// A model that declared its native chunk must return exactly that many
/// frames; anything else is a model error. An undeclared model is elastic:
/// its prefix is `min(len, horizon)`, and a chunk shorter than the horizon
/// latches `short_chunk_warned` (once per endpoint).
pub fn take_prefix<T>(
    frames: Vec<T>,
    horizon: u32,
    native_chunk: Option<u32>,
    short_chunk_warned: &mut bool,
) -> (executed: Result<Vec<T>, Error>)
    ensures
        match native_chunk {
            Some(native) => if frames@.len() != native {
                executed is Err && is_model_error(
                    executed->Err_0,
                    sliced_chunk_text(native, frames@.len(), horizon),
                ) && *final(short_chunk_warned) == *old(short_chunk_warned)
            } else {
                executed is Ok && executed->Ok_0@ == executed_prefix(frames@, horizon)
                    && *final(short_chunk_warned) == *old(short_chunk_warned)
            },
            None => executed is Ok && executed->Ok_0@ == executed_prefix(frames@, horizon)
                && *final(short_chunk_warned) == (*old(short_chunk_warned) || frames@.len()
                < horizon),
        },
{
    let mut frames = frames;
    let len = frames.len();
    match native_chunk {
        Some(native) => {
            if len as u64 != native as u64 {
                let mut message = String::from_str("model declares native_chunk=");
                message.append(number_text(native as u64).as_str());
                message.append(" but its chunk corner returned ");
                message.append(number_text(len as u64).as_str());
                message.append(" frames at execution_horizon=");
                message.append(number_text(horizon as u64).as_str());
                message.append(
                    ": return the WHOLE native chunk and let the runtime execute its prefix (do not slice to the horizon), or drop the declaration",
                );
                return Err(Error::model(message));
            }
        },
        None => {
            if (len as u64) < (horizon as u64) && !*short_chunk_warned {
                *short_chunk_warned = true;
            }
        },
    }
    if (len as u64) > (horizon as u64) {
        frames.truncate(horizon as usize);
    }
    Ok(frames)
}

/// The message of a predict whose episode rows do not match its lanes.
pub open spec fn episode_rows_text(rows: nat, lanes: nat) -> Seq<char> {
    "predict carries "@ + decimal(rows) + " episode rows for "@ + decimal(lanes)
        + " lanes; episode identity is row-aligned with the observation"@
}

/// The message of lane `index` of a `num_envs`-lane predict carrying no
/// episode id, with `episodes` ids in the request.
pub open spec fn missing_lane_episode_text(index: nat, num_envs: nat, episodes: nat) -> Seq<char> {
    "predict request lane "@ + decimal(index) + " has no episode_id (num_envs="@ + decimal(num_envs)
        + ", episodes="@ + decimal(episodes) + "); every lane must carry a non-empty episode_id"@
}

/// Whether lane `index` has a non-empty episode id among `episodes`.
pub open spec fn lane_has_episode(episodes: Seq<String>, index: int) -> bool {
    index < episodes.len() && episodes[index]@.len() > 0
}

/// Every decoded lane must carry a non-empty episode id, since all
/// per-episode state (the frame windows) is keyed by it: the first of the
/// `lanes` lanes without one fails the predict rather than sharing an
/// anonymous buffer with other lanes.
pub fn check_lane_episode_ids(episodes: &Vec<String>, lanes: usize, num_envs: usize) -> (checked: Result<(), Error>)
    ensures
        (forall|i: int| 0 <= i < lanes ==> #[trigger] lane_has_episode(episodes@, i)) <==> checked is Ok,
        checked is Err ==> exists|i: int|
            0 <= i < lanes && !(#[trigger] lane_has_episode(episodes@, i)) && (forall|j: int|
                0 <= j < i ==> #[trigger] lane_has_episode(episodes@, j)) && is_model_error(
                checked->Err_0,
                missing_lane_episode_text(i as nat, num_envs as nat, episodes@.len()),
            ),
{
    let mut index: usize = 0;
    while index < lanes
        invariant
            index <= lanes,
            forall|j: int| 0 <= j < index ==> #[trigger] lane_has_episode(episodes@, j),
        decreases lanes - index,
    {
        if index >= episodes.len() || episodes[index].as_str().is_empty() {
            let mut message = String::from_str("predict request lane ");
            message.append(number_text(index as u64).as_str());
            message.append(" has no episode_id (num_envs=");
            message.append(number_text(num_envs as u64).as_str());
            message.append(", episodes=");
            message.append(number_text(episodes.len() as u64).as_str());
            message.append("); every lane must carry a non-empty episode_id");
            proof {
                reveal_strlit("predict request lane ");
                reveal_strlit(" has no episode_id (num_envs=");
                reveal_strlit(", episodes=");
                reveal_strlit("); every lane must carry a non-empty episode_id");
                assert(!lane_has_episode(episodes@, index as int));
                assert(message@ =~= missing_lane_episode_text(index as nat, num_envs as nat, episodes@.len()));
            }
            return Err(Error::model(message));
        }
        index = index + 1;
    }
    Ok(())
}

/// Episode identity is row-aligned with the lanes: a predict whose episode
/// rows do not match its lane count is refused.
pub fn check_episode_rows(rows: usize, num_envs: usize) -> (checked: Result<(), Error>)
    ensures
        rows == num_envs ==> checked is Ok,
        rows != num_envs ==> checked is Err && is_model_error(
            checked->Err_0,
            episode_rows_text(rows as nat, num_envs as nat),
        ),
{
    if rows != num_envs {
        let mut message = String::from_str("predict carries ");
        message.append(number_text(rows as u64).as_str());
        message.append(" episode rows for ");
        message.append(number_text(num_envs as u64).as_str());
        message.append(" lanes; episode identity is row-aligned with the observation");
        return Err(Error::model(message));
    }
    Ok(())
}

/// The message of a batched corner that returned the wrong number of outputs:
/// `<corner> returned <n> <noun> for <lanes> lanes`.
pub open spec fn batch_count_text(corner: Seq<char>, noun: Seq<char>, returned: nat, lanes: nat) -> Seq<char> {
    corner + " returned "@ + decimal(returned) + " "@ + noun + " for "@ + decimal(lanes) + " lanes"@
}

/// A batched corner must return one output per lane.
pub fn check_batch_outputs(corner: &str, noun: &str, returned: usize, num_envs: usize) -> (checked: Result<
    (),
    Error,
>)
    ensures
        returned == num_envs ==> checked is Ok,
        returned != num_envs ==> checked is Err && is_model_error(
            checked->Err_0,
            batch_count_text(corner@, noun@, returned as nat, num_envs as nat),
        ),
{
    if returned != num_envs {
        let mut message = String::from_str(corner);
        message.append(" returned ");
        message.append(number_text(returned as u64).as_str());
        message.append(" ");
        message.append(noun);
        message.append(" for ");
        message.append(number_text(num_envs as u64).as_str());
        message.append(" lanes");
        return Err(Error::model(message));
    }
    Ok(())
}

/// The shortest length among `lanes` (0 for no lanes).
pub open spec fn min_len<T>(lanes: Seq<Seq<T>>) -> nat
    decreases lanes.len(),
{
    if lanes.len() == 0 {
        0
    } else if lanes.len() == 1 {
        lanes[0].len()
    } else {
        let rest = min_len(lanes.drop_last());
        if lanes.last().len() < rest {
            lanes.last().len()
        } else {
            rest
        }
    }
}

proof fn lemma_min_len<T>(lanes: Seq<Seq<T>>)
    ensures
        lanes.len() > 0 ==> exists|l: int| 0 <= l < lanes.len() && lanes[l].len() == min_len(lanes),
        forall|l: int| 0 <= l < lanes.len() ==> min_len(lanes) <= #[trigger] lanes[l].len(),
    decreases lanes.len(),
{
    if lanes.len() == 1 {
        assert(lanes[0].len() == min_len(lanes));
    } else if lanes.len() > 1 {
        lemma_min_len(lanes.drop_last());
        assert forall|l: int| 0 <= l < lanes.len() implies min_len(lanes) <= #[trigger] lanes[l].len() by {
            if l < lanes.len() - 1 {
                assert(lanes[l] == lanes.drop_last()[l]);
            }
        }
        if lanes.last().len() < min_len(lanes.drop_last()) {
            assert(lanes[lanes.len() - 1].len() == min_len(lanes));
        } else {
            let l = choose|l: int| 0 <= l < lanes.drop_last().len() && lanes.drop_last()[l].len() == min_len(lanes.drop_last());
            assert(lanes[l] == lanes.drop_last()[l]);
        }
    }
}

/// Every lane's frames after its first.
pub open spec fn tails_of<T>(lanes: Seq<Vec<T>>) -> Seq<Seq<T>> {
    Seq::new(lanes.len(), |l: int| lanes[l]@.drop_first())
}

/// Peel each lane's first frame (this step's action) from its future frames,
/// and transpose the future frames into per-step batches
/// (`replay[step][lane]`), to the shortest lane. A lane with no frame at all
/// is a model error.
pub fn split_frames<T>(lanes: Vec<Vec<T>>) -> (split: Result<(Vec<T>, Vec<Vec<T>>), Error>)
    ensures
        (exists|l: int| 0 <= l < lanes@.len() && (#[trigger] lanes@[l])@.len() == 0) ==> split is Err
            && is_model_error(split->Err_0, "a chunked model returned an empty action chunk"@),
        (forall|l: int| 0 <= l < lanes@.len() ==> (#[trigger] lanes@[l])@.len() > 0) ==> split is Ok
            && {
            let (actions, replay) = split->Ok_0;
            let tails = tails_of(lanes@);
            &&& actions@.len() == lanes@.len()
            &&& forall|l: int| 0 <= l < lanes@.len() ==> actions@[l] == (#[trigger] lanes@[l])@[0]
            &&& replay@.len() == min_len(tails)
            &&& forall|s: int|
                0 <= s < replay@.len() ==> (#[trigger] replay@[s])@.len() == lanes@.len()
            &&& forall|s: int, l: int|
                0 <= s < replay@.len() && 0 <= l < lanes@.len() ==> #[trigger] replay@[s]@[l]
                    == tails[l][s]
        },
{
    let ghost given = lanes@;
    let ghost tails = tails_of(given);
    let n = lanes.len();
    let mut i: usize = 0;
    let mut all_present = true;
    while i < n && all_present
        invariant
            n == lanes@.len(),
            i <= n,
            lanes@ == given,
            all_present ==> forall|l: int| 0 <= l < i ==> (#[trigger] given[l])@.len() > 0,
            !all_present ==> exists|l: int| 0 <= l < n && (#[trigger] given[l])@.len() == 0,
        decreases n - i,
    {
        if lanes[i].len() == 0 {
            assert(given[i as int]@.len() == 0);
            all_present = false;
        }
        i = i + 1;
    }
    if !all_present {
        return Err(Error::model(String::from_str("a chunked model returned an empty action chunk")));
    }
    // Peel frame 0 of every lane.
    let mut actions: Vec<T> = Vec::new();
    let mut rests: Vec<Vec<T>> = Vec::new();
    let mut remaining = lanes;
    let mut taken: usize = 0;
    while remaining.len() > 0
        invariant
            tails == tails_of(given),
            taken + remaining@.len() == n,
            n == given.len(),
            forall|l: int| 0 <= l < n ==> (#[trigger] given[l])@.len() > 0,
            remaining@ == given.skip(taken as int),
            actions@.len() == taken,
            rests@.len() == taken,
            forall|l: int| 0 <= l < taken ==> actions@[l] == (#[trigger] given[l])@[0],
            forall|l: int| 0 <= l < taken ==> (#[trigger] rests@[l])@ == tails[l],
        decreases remaining@.len(),
    {
        let mut lane = remaining.remove(0);
        assert(lane == given[taken as int]);
        let first = lane.remove(0);
        assert(lane@ =~= given[taken as int]@.drop_first());
        assert(tails[taken as int] == given[taken as int]@.drop_first());
        actions.push(first);
        rests.push(lane);
        taken = taken + 1;
        assert(remaining@ =~= given.skip(taken as int));
    }
    // Transpose the future frames to the shortest lane.
    let mut shortest: usize = 0;
    if n > 0 {
        shortest = rests[0].len();
        let mut l: usize = 1;
        while l < n
            invariant
                rests@.len() == n,
                1 <= l <= n,
                shortest == min_len(rests@.map_values(|lane: Vec<T>| lane@).take(l as int)),
            decreases n - l,
        {
            let ghost views = rests@.map_values(|lane: Vec<T>| lane@);
            assert(views.take(l + 1).drop_last() =~= views.take(l as int));
            if rests[l].len() < shortest {
                shortest = rests[l].len();
            }
            l = l + 1;
        }
        proof {
            let views = rests@.map_values(|lane: Vec<T>| lane@);
            assert(views.take(n as int) =~= views);
        }
    }
    proof {
        let views = rests@.map_values(|lane: Vec<T>| lane@);
        assert(views =~= tails);
        if n == 0 {
            assert(tails.len() == 0);
        }
    }
    proof {
        lemma_min_len(tails);
    }
    let mut replay: Vec<Vec<T>> = Vec::new();
    let mut step: usize = 0;
    while step < shortest
        invariant
            rests@.len() == n,
            tails.len() == n,
            shortest == min_len(tails),
            forall|l: int| 0 <= l < n ==> min_len(tails) <= #[trigger] tails[l].len(),
            step <= shortest,
            replay@.len() == step,
            forall|l: int| 0 <= l < n ==> (#[trigger] rests@[l])@ == tails[l].skip(step as int),
            forall|s: int| 0 <= s < step ==> (#[trigger] replay@[s])@.len() == n,
            forall|s: int, l: int|
                0 <= s < step && 0 <= l < n ==> #[trigger] replay@[s]@[l] == tails[l][s],
        decreases shortest - step,
    {
        let mut batch: Vec<T> = Vec::new();
        let mut l: usize = 0;
        while l < n
            invariant
                rests@.len() == n,
                tails.len() == n,
                step < shortest,
                forall|k: int| 0 <= k < n ==> shortest <= #[trigger] tails[k].len(),
                l <= n,
                batch@.len() == l,
                forall|k: int| 0 <= k < l ==> batch@[k] == tails[k][step as int],
                forall|k: int| 0 <= k < l ==> (#[trigger] rests@[k])@ == tails[k].skip(step + 1),
                forall|k: int| l <= k < n ==> (#[trigger] rests@[k])@ == tails[k].skip(step as int),
            decreases n - l,
        {
            let mut lane = rests.remove(l);
            let frame = lane.remove(0);
            assert(lane@ =~= tails[l as int].skip(step + 1));
            rests.insert(l, lane);
            batch.push(frame);
            l = l + 1;
            proof {
                assert forall|k: int| 0 <= k < l implies (#[trigger] rests@[k])@ == tails[k].skip(step + 1) by {
                }
            }
        }
        replay.push(batch);
        step = step + 1;
    }
    Ok((actions, replay))
}

/// The groups of one execution-horizon bucket of a grouped predict.
#[derive(Debug, Clone, PartialEq, Eq)]
pub struct HorizonBucket {
    /// The bucket's execution horizon (at least one).
    pub horizon: u32,
    /// The indices of the bucket's groups, in group order.
    pub groups: Vec<usize>,
}

/// The bucket a group with pinned `horizon` falls into: `max(horizon, 1)`.
pub open spec fn bucket_horizon(horizon: u32) -> u32 {
    if horizon < 1 {
        1
    } else {
        horizon
    }
}

/// The indices of the prepared groups whose bucket is `horizon`, in order.
pub open spec fn groups_at(prepared: Seq<(usize, u32)>, horizon: u32) -> Seq<usize>
    decreases prepared.len(),
{
    if prepared.len() == 0 {
        Seq::empty()
    } else if bucket_horizon(prepared.last().1) == horizon {
        groups_at(prepared.drop_last(), horizon).push(prepared.last().0)
    } else {
        groups_at(prepared.drop_last(), horizon)
    }
}

/// The bucket horizons the prepared groups fall into.
pub open spec fn bucket_horizons(prepared: Seq<(usize, u32)>) -> Set<u32> {
    Set::new(|h: u32| exists|p: int| 0 <= p < prepared.len() && bucket_horizon(prepared[p].1) == h)
}

proof fn lemma_groups_at_nonempty(prepared: Seq<(usize, u32)>, p: int)
    requires
        0 <= p < prepared.len(),
    ensures
        groups_at(prepared, bucket_horizon(prepared[p].1)).len() > 0,
    decreases prepared.len(),
{
    if p < prepared.len() - 1 {
        assert(prepared.drop_last()[p] == prepared[p]);
        lemma_groups_at_nonempty(prepared.drop_last(), p);
    }
}

/// Bucket the prepared groups `(index, pinned horizon)` of a grouped predict
/// by `max(horizon, 1)`: one bucket per distinct horizon, in ascending
/// horizon, each holding exactly the groups of its horizon in prepared order.
pub fn plan_buckets(prepared: &Vec<(usize, u32)>) -> (buckets: Vec<HorizonBucket>)
    ensures
        forall|b: int, c: int|
            0 <= b < c < buckets@.len() ==> (#[trigger] buckets@[b]).horizon < (
            #[trigger] buckets@[c]).horizon,
        forall|b: int|
            0 <= b < buckets@.len() ==> bucket_horizons(prepared@).contains(
                (#[trigger] buckets@[b]).horizon,
            ),
        forall|h: u32|
            bucket_horizons(prepared@).contains(h) ==> exists|b: int|
                0 <= b < buckets@.len() && (#[trigger] buckets@[b]).horizon == h,
        forall|b: int|
            0 <= b < buckets@.len() ==> (#[trigger] buckets@[b]).groups@ == groups_at(
                prepared@,
                buckets@[b].horizon,
            ) && buckets@[b].groups@.len() > 0,
{
    // The distinct bucket horizons, ascending.
    let mut horizons: Vec<u32> = Vec::new();
    let mut p: usize = 0;
    while p < prepared.len()
        invariant
            p <= prepared@.len(),
            forall|b: int, c: int|
                0 <= b < c < horizons@.len() ==> horizons@[b] < horizons@[c],
            forall|b: int|
                0 <= b < horizons@.len() ==> bucket_horizons(prepared@).contains(
                    #[trigger] horizons@[b],
                ),
            forall|q: int|
                0 <= q < p ==> horizons@.contains(bucket_horizon(#[trigger] prepared@[q].1)),
        decreases prepared@.len() - p,
    {
        let pinned = prepared[p].1;
        let horizon = if pinned < 1 {
            1
        } else {
            pinned
        };
        assert(bucket_horizons(prepared@).contains(horizon)) by {
            assert(bucket_horizon(prepared@[p as int].1) == horizon);
        }
        let mut b: usize = 0;
        while b < horizons.len() && horizons[b] < horizon
            invariant
                b <= horizons@.len(),
                forall|c: int| 0 <= c < b ==> #[trigger] horizons@[c] < horizon,
            decreases horizons@.len() - b,
        {
            b = b + 1;
        }
        let ghost old_horizons = horizons@;
        if b == horizons.len() || horizons[b] != horizon {
            horizons.insert(b, horizon);
            proof {
                assert forall|q: int| 0 <= q < p + 1 implies horizons@.contains(
                    bucket_horizon(#[trigger] prepared@[q].1),
                ) by {
                    if q < p {
                        let k = choose|k: int| 0 <= k < old_horizons.len() && old_horizons[k] == bucket_horizon(prepared@[q].1);
                        if k < b {
                            assert(horizons@[k] == old_horizons[k]);
                        } else {
                            assert(horizons@[k + 1] == old_horizons[k]);
                        }
                    } else {
                        assert(horizons@[b as int] == horizon);
                    }
                }
            }
        } else {
            proof {
                assert(horizons@[b as int] == horizon);
            }
        }
        p = p + 1;
    }
    // One bucket per distinct horizon, holding its groups in order.
    let mut buckets: Vec<HorizonBucket> = Vec::new();
    let mut b: usize = 0;
    while b < horizons.len()
        invariant
            b <= horizons@.len(),
            buckets@.len() == b,
            forall|c: int, d: int| 0 <= c < d < horizons@.len() ==> horizons@[c] < horizons@[d],
            forall|c: int|
                0 <= c < horizons@.len() ==> bucket_horizons(prepared@).contains(
                    #[trigger] horizons@[c],
                ),
            forall|c: int| 0 <= c < b ==> (#[trigger] buckets@[c]).horizon == horizons@[c],
            forall|c: int|
                0 <= c < b ==> (#[trigger] buckets@[c]).groups@ == groups_at(
                    prepared@,
                    horizons@[c],
                ),
        decreases horizons@.len() - b,
    {
        let horizon = horizons[b];
        let mut groups: Vec<usize> = Vec::new();
        let mut q: usize = 0;
        while q < prepared.len()
            invariant
                q <= prepared@.len(),
                groups@ == groups_at(prepared@.take(q as int), horizon),
            decreases prepared@.len() - q,
        {
            let (index, pinned) = prepared[q];
            let h = if pinned < 1 {
                1
            } else {
                pinned
            };
            assert(prepared@.take(q + 1).drop_last() =~= prepared@.take(q as int));
            if h == horizon {
                groups.push(index);
            }
            q = q + 1;
        }
        assert(prepared@.take(prepared@.len() as int) =~= prepared@);
        buckets.push(HorizonBucket { horizon, groups });
        b = b + 1;
    }
    proof {
        assert forall|c: int| 0 <= c < buckets@.len() implies (#[trigger] buckets@[c]).groups@.len() > 0 by {
            let h = horizons@[c];
            assert(bucket_horizons(prepared@).contains(h));
            let p = choose|p: int| 0 <= p < prepared@.len() && bucket_horizon(prepared@[p].1) == h;
            lemma_groups_at_nonempty(prepared@, p);
        }
        assert forall|h: u32| bucket_horizons(prepared@).contains(h) implies exists|c: int|
            0 <= c < buckets@.len() && (#[trigger] buckets@[c]).horizon == h by {
            let p = choose|p: int| 0 <= p < prepared@.len() && bucket_horizon(prepared@[p].1) == h;
            assert(horizons@.contains(bucket_horizon(prepared@[p].1)));
            let k = choose|k: int| 0 <= k < horizons@.len() && horizons@[k] == h;
            assert(buckets@[k].horizon == h);
        }
    }
    buckets
}

/// Whether `annotated` is `error` with the assembled-input signature `summary`
/// appended on a new line: a model error keeps its recoverability and gains the
/// signature, an internal error gains it too, and every other error (transport,
/// environment, timeout) passes through unchanged.
pub open spec fn is_annotation_of(annotated: Error, error: Error, summary: Seq<char>) -> bool {
    match error {
        Error::Model(model) => annotated matches Error::Model(out) && out.is_recoverable
            == model.is_recoverable && out.message@ == model.message@ + "\n"@ + summary,
        Error::Internal(message) => annotated matches Error::Internal(out) && out@ == message@
            + "\n"@ + summary,
        _ => annotated == error,
    }
}

/// Append the assembled-input signature to a predict failure, so a shape or
/// dtype error raised inside the model states what the adapter handed it.
pub fn annotate_predict_error(err: Error, summary: &str) -> (annotated: Error)
    ensures
        is_annotation_of(annotated, err, summary@),
{
    match err {
        Error::Model(model) => {
            let mut message = model.message;
            message.append("\n");
            message.append(summary);
            Error::Model(ModelError { message, is_recoverable: model.is_recoverable })
        },
        Error::Internal(message) => {
            let mut message = message;
            message.append("\n");
            message.append(summary);
            Error::Internal(message)
        },
        other => other,
    }
}

/// Annotating a failure never changes its variant or whether it may be
/// retried: a recoverable model error stays recoverable after the input
/// signature is appended.
pub proof fn lemma_annotation_keeps_recoverability(annotated: Error, error: Error, summary: Seq<char>)
    requires
        is_annotation_of(annotated, error, summary),
    ensures
        spec_is_recoverable(annotated) == spec_is_recoverable(error),
        (annotated is Model) == (error is Model),
        (annotated is Internal) == (error is Internal),
{
}

/// One lane's episode identity, handed to the model's corners row-aligned with
/// the inputs.
#[derive(Debug, Clone, PartialEq, Eq)]
pub struct EpisodeInfo {
    /// The episode the lane's row belongs to.
    pub episode_id: String,
    /// The seed the episode was reset with, when known.
    pub seed: Option<i64>,
}

/// The model's predict corners, implemented by a model (or a language binding)
/// over its assembled input and raw action type `T`.
///
/// `predict` is the contract floor: one lane's input to one raw action. The
/// other corners are optional and announced by their `has_*` flags: the
/// single-sample chunk corner returns a chunk of frames for one lane, and the
/// batched corners serve every lane in one call.
pub trait PredictFn<T> {
    /// The raw observation a spec-less route hands straight to the model.
    type Observation;

    /// A spec-less route (no adapter): the whole observation goes to the
    /// model, which answers every lane's frames at `horizon` itself.
    fn predict_spec_less_chunked(&self, observation: Self::Observation, horizon: u32) -> Result<
        PredictFrames<T>,
        Error,
    >;

    /// One lane's input to one raw action.
    fn predict(&self, model_input: T, episode: Option<&EpisodeInfo>) -> Result<T, Error>;

    /// One lane's input to a chunk of raw action frames, or `None` when the
    /// model has no distinct chunk corner.
    fn predict_chunk(&self, model_input: T, horizon: u32, episode: Option<&EpisodeInfo>) -> (frames: Result<
        Option<Vec<T>>,
        Error,
    >)
        default_ensures
            frames matches Ok(None),
    {
        Ok(None)
    }

    /// Whether the model defines the single-sample chunk corner.
    fn has_chunk(&self) -> (defined: bool)
        default_ensures
            !defined,
    {
        false
    }

    /// Every lane's input to one raw action per lane, in one call.
    fn predict_batch(&self, inputs: Vec<T>, episodes: &Vec<EpisodeInfo>) -> (actions: Result<Vec<T>, Error>)
        default_ensures
            actions matches Err(error) && is_model_error(error, "predict_batch is not implemented"@),
    {
        proof {
            reveal_strlit("predict_batch is not implemented");
        }
        Err(Error::model(String::from_str("predict_batch is not implemented")))
    }

    /// Whether the model defines the batched corner.
    fn has_batch(&self) -> (defined: bool)
        default_ensures
            !defined,
    {
        false
    }

    /// Every lane's input to one chunk of frames per lane, in one call.
    fn predict_chunk_batch(&self, inputs: Vec<T>, horizon: u32, episodes: &Vec<EpisodeInfo>) -> (chunks: Result<
        Vec<Vec<T>>,
        Error,
    >)
        default_ensures
            chunks matches Err(error) && is_model_error(error, "predict_chunk_batch is not implemented"@),
    {
        proof {
            reveal_strlit("predict_chunk_batch is not implemented");
        }
        Err(Error::model(String::from_str("predict_chunk_batch is not implemented")))
    }

    /// Whether the model defines the batched chunk corner.
    fn has_chunk_batch(&self) -> (defined: bool)
        default_ensures
            !defined,
    {
        false
    }

    /// The chunk length the model declares it always returns, if any.
    fn native_chunk(&self) -> (native: Option<u32>)
        default_ensures
            native is None,
    {
        None
    }

    /// Whether the model permits grouped predicts to fuse into one forward.
    fn allow_fusion(&self) -> (allowed: bool)
        default_ensures
            !allowed,
    {
        false
    }

    /// Fired once per ended episode, e.g. to reset a recurrent state; nothing
    /// by default.
    fn on_episode_end(&self, episode_id: &str) -> (ended: Result<(), Error>)
        default_ensures
            ended is Ok,
    {
        Ok(())
    }

    /// Fired once at shutdown, e.g. to free device memory; nothing by default.
    fn on_close(&self) -> (closed: Result<(), Error>)
        default_ensures
            closed is Ok,
    {
        Ok(())
    }
}

/// Whether the model's episode-end hook answered `answer` for `episode_id`.
pub open spec fn episode_end_answered<T, P: PredictFn<T>>(
    predict: &P,
    episode_id: Seq<char>,
    answer: Result<(), Error>,
) -> bool {
    exists|id: &str| id@ == episode_id && #[trigger] call_ensures(P::on_episode_end, (predict, id), answer)
}

/// Surface ended episodes to the model's own hook, one call per id in order,
/// stopping at the first failure. No id (an evict-all teardown, not an
/// episode end) fires nothing.
pub fn fire_episode_ends<T, P: PredictFn<T>>(predict: &P, episode_ids: &Vec<String>) -> (fired: Result<
    (),
    Error,
>)
    ensures
        fired is Ok ==> forall|k: int|
            0 <= k < episode_ids@.len() ==> episode_end_answered(
                predict,
                (#[trigger] episode_ids@[k])@,
                Ok(()),
            ),
        fired matches Err(error) ==> exists|k: int|
            0 <= k < episode_ids@.len() && (forall|j: int|
                0 <= j < k ==> episode_end_answered(predict, (#[trigger] episode_ids@[j])@, Ok(())))
                && episode_end_answered(predict, (#[trigger] episode_ids@[k])@, Err(error)),
{
    let mut k: usize = 0;
    while k < episode_ids.len()
        invariant
            k <= episode_ids@.len(),
            forall|j: int| 0 <= j < k ==> episode_end_answered(predict, (#[trigger] episode_ids@[j])@, Ok(())),
        decreases episode_ids@.len() - k,
    {
        let id = episode_ids[k].as_str();
        let answer = predict.on_episode_end(id);
        let ghost answer_view = answer;
        assert(call_ensures(P::on_episode_end, (predict, id), answer_view));
        match answer {
            Ok(unit) => {
                assert(answer_view == Ok::<(), Error>(unit));
                assert(episode_end_answered(predict, episode_ids@[k as int]@, Ok(())));
            },
            Err(error) => {
                assert(episode_end_answered(predict, episode_ids@[k as int]@, Err(error)));
                return Err(error);
            },
        }
        k = k + 1;
    }
    Ok(())
}

/// The corners a model announces, read once per predict.
pub fn corner_support<T, P: PredictFn<T>>(predict: &P) -> (support: CornerSupport)
    ensures
        call_ensures(P::has_batch, (predict,), support.batch),
        call_ensures(P::has_chunk, (predict,), support.chunk),
        call_ensures(P::has_chunk_batch, (predict,), support.chunk_batch),
{
    CornerSupport {
        batch: predict.has_batch(),
        chunk: predict.has_chunk(),
        chunk_batch: predict.has_chunk_batch(),
    }
}

/// Whether every lane of `lanes` up to `upto` has exactly `native` frames.
pub open spec fn all_lanes_have<T>(lanes: Seq<Vec<T>>, native: nat, upto: int) -> bool {
    forall|k: int| 0 <= k < upto ==> (#[trigger] lanes[k])@.len() == native
}

/// Cap every lane of a chunk corner's output to the execution prefix (see
/// [`take_prefix`]): the first lane whose length betrays a declared native
/// chunk fails the predict.
pub fn prefix_chunks<T>(
    chunks: Vec<Vec<T>>,
    horizon: u32,
    native_chunk: Option<u32>,
    short_chunk_warned: &mut bool,
) -> (prefixed: Result<Vec<Vec<T>>, Error>)
    ensures
        match native_chunk {
            Some(native) => {
                &&& all_lanes_have(chunks@, native as nat, chunks@.len() as int) <==> prefixed is Ok
                &&& *final(short_chunk_warned) == *old(short_chunk_warned)
                &&& prefixed is Err ==> exists|k: int|
                    0 <= k < chunks@.len() && all_lanes_have(chunks@, native as nat, k)
                        && (#[trigger] chunks@[k])@.len() != native && is_model_error(
                        prefixed->Err_0,
                        sliced_chunk_text(native, chunks@[k]@.len(), horizon),
                    )
            },
            None => prefixed is Ok && *final(short_chunk_warned) == (*old(short_chunk_warned)
                || exists|k: int| 0 <= k < chunks@.len() && (#[trigger] chunks@[k])@.len() < horizon),
        },
        prefixed is Ok ==> prefixed->Ok_0@.len() == chunks@.len() && forall|k: int|
            0 <= k < chunks@.len() ==> (#[trigger] prefixed->Ok_0@[k])@ == executed_prefix(
                chunks@[k]@,
                horizon,
            ),
{
    let ghost given = chunks@;
    let ghost warned_before = *short_chunk_warned;
    let total = chunks.len();
    let mut rest = chunks;
    let mut out: Vec<Vec<T>> = Vec::new();
    let mut k: usize = 0;
    while rest.len() > 0
        invariant
            total == given.len(),
            given == chunks@,
            warned_before == *old(short_chunk_warned),
            k + rest@.len() == given.len(),
            rest@ == given.skip(k as int),
            out@.len() == k,
            forall|j: int| 0 <= j < k ==> (#[trigger] out@[j])@ == executed_prefix(given[j]@, horizon),
            native_chunk matches Some(native) ==> all_lanes_have(given, native as nat, k as int)
                && *short_chunk_warned == warned_before,
            native_chunk is None ==> *short_chunk_warned == (warned_before || exists|j: int|
                0 <= j < k && (#[trigger] given[j])@.len() < horizon),
        decreases rest@.len(),
    {
        let lane = rest.remove(0);
        assert(lane == given[k as int]);
        let ghost warned_mid = *short_chunk_warned;
        match take_prefix(lane, horizon, native_chunk, short_chunk_warned) {
            Ok(frames) => {
                out.push(frames);
                proof {
                    if native_chunk is None {
                        if given[k as int]@.len() < horizon {
                            assert(exists|j: int| 0 <= j < k + 1 && (#[trigger] given[j])@.len() < horizon);
                        }
                        if warned_mid && !warned_before {
                            let j = choose|j: int| 0 <= j < k && (#[trigger] given[j])@.len() < horizon;
                            assert(0 <= j < k + 1);
                        }
                        assert(*short_chunk_warned == (warned_before || exists|j: int|
                            0 <= j < k + 1 && (#[trigger] given[j])@.len() < horizon));
                    }
                }
                k = k + 1;
                assert(rest@ =~= given.skip(k as int));
            },
            Err(error) => {
                proof {
                    let native = native_chunk->Some_0;
                    assert(given[k as int]@.len() != native);
                    assert(all_lanes_have(chunks@, native as nat, k as int));
                    assert(is_model_error(error, sliced_chunk_text(native, chunks@[k as int]@.len(), horizon)));
                    assert(*short_chunk_warned == warned_before);
                    assert(exists|j: int|
                    0 <= j < chunks@.len() && all_lanes_have(chunks@, native as nat, j)
                        && (#[trigger] chunks@[j])@.len() != native && is_model_error(
                        error,
                        sliced_chunk_text(native, chunks@[j]@.len(), horizon),
                    ));
                }
                return Err(error);
            },
        }
    }
    Ok(out)
}

/// The episode row the model receives with lane `index`: the lane's own row,
/// none past the last row.
pub open spec fn lane_row(episodes: &Vec<EpisodeInfo>, index: int) -> Option<&EpisodeInfo> {
    if 0 <= index < episodes@.len() {
        Some(&episodes@[index])
    } else {
        None
    }
}

/// The optional episode row of lane `index`.
fn episode_row(episodes: &Vec<EpisodeInfo>, index: usize) -> (row: Option<&EpisodeInfo>)
    ensures
        row == lane_row(episodes, index as int),
{
    if index < episodes.len() {
        Some(&episodes[index])
    } else {
        None
    }
}

/// The message of a chunk corner that announced itself but returned no chunk.
pub open spec fn chunkless_text() -> Seq<char> {
    "model reports a chunk corner (has_chunk) but predict_chunk returned None"@
}

/// Whether `frames` is what the batched chunk corner served: the model's
/// chunks for `inputs`, one per lane, each capped to the execution prefix,
/// every chunk of the declared native length where one is declared.
pub open spec fn chunk_batch_served<T, P: PredictFn<T>>(
    predict: &P,
    inputs: Vec<T>,
    episodes: &Vec<EpisodeInfo>,
    horizon: u32,
    native_chunk: Option<u32>,
    num_envs: usize,
    frames: Seq<Vec<T>>,
) -> bool {
    exists|chunks: Vec<Vec<T>>|
        #[trigger] call_ensures(
            P::predict_chunk_batch,
            (predict, inputs, horizon, episodes),
            Ok::<Vec<Vec<T>>, Error>(chunks),
        ) && chunks@.len() == num_envs && frames.len() == num_envs && (native_chunk matches Some(native)
            ==> all_lanes_have(chunks@, native as nat, num_envs as int)) && forall|k: int|
            0 <= k < num_envs ==> (#[trigger] frames[k])@ == executed_prefix(chunks@[k]@, horizon)
}

/// Whether `error` is how the batched chunk corner failed: the model's own
/// failure, a wrong number of chunks, or the first chunk that betrays a
/// declared native length.
pub open spec fn chunk_batch_failed<T, P: PredictFn<T>>(
    predict: &P,
    inputs: Vec<T>,
    episodes: &Vec<EpisodeInfo>,
    horizon: u32,
    native_chunk: Option<u32>,
    num_envs: usize,
    error: Error,
) -> bool {
    exists|answer: Result<Vec<Vec<T>>, Error>|
        #[trigger] call_ensures(P::predict_chunk_batch, (predict, inputs, horizon, episodes), answer)
            && match answer {
            Err(failure) => error == failure,
            Ok(chunks) => if chunks@.len() != num_envs {
                is_model_error(
                    error,
                    batch_count_text("predict_chunk_batch"@, "chunks"@, chunks@.len(), num_envs as nat),
                )
            } else {
                native_chunk matches Some(native) && exists|k: int|
                    0 <= k < chunks@.len() && all_lanes_have(chunks@, native as nat, k) && (
                    #[trigger] chunks@[k])@.len() != native && is_model_error(
                        error,
                        sliced_chunk_text(native, chunks@[k]@.len(), horizon),
                    )
            },
        }
}

/// Whether lane `k` of `frames` is what the single-sample chunk corner served
/// it: the chunk for the lane's own input and episode row, capped to the
/// execution prefix, of the declared native length where one is declared.
pub open spec fn lane_chunk_served<T, P: PredictFn<T>>(
    predict: &P,
    inputs: Vec<T>,
    episodes: &Vec<EpisodeInfo>,
    horizon: u32,
    native_chunk: Option<u32>,
    frames: Seq<Vec<T>>,
    k: int,
) -> bool {
    exists|chunk: Vec<T>|
        #[trigger] call_ensures(
            P::predict_chunk,
            (predict, inputs@[k], horizon, lane_row(episodes, k)),
            Ok::<Option<Vec<T>>, Error>(Some(chunk)),
        ) && frames[k]@ == executed_prefix(chunk@, horizon) && (native_chunk matches Some(native)
            ==> chunk@.len() == native)
}

/// Whether `frames` is what the single-sample chunk corner served, lane by
/// lane (see [`lane_chunk_served`]).
pub open spec fn chunk_served<T, P: PredictFn<T>>(
    predict: &P,
    inputs: Vec<T>,
    episodes: &Vec<EpisodeInfo>,
    horizon: u32,
    native_chunk: Option<u32>,
    frames: Seq<Vec<T>>,
) -> bool {
    frames.len() == inputs@.len() && forall|k: int|
        0 <= k < inputs@.len() ==> #[trigger] lane_chunk_served(
            predict,
            inputs,
            episodes,
            horizon,
            native_chunk,
            frames,
            k,
        )
}

/// Whether `error` is how the single-sample chunk corner failed on some lane:
/// the model's own failure, no chunk, or a chunk that betrays a declared
/// native length.
pub open spec fn chunk_failed<T, P: PredictFn<T>>(
    predict: &P,
    inputs: Vec<T>,
    episodes: &Vec<EpisodeInfo>,
    horizon: u32,
    native_chunk: Option<u32>,
    error: Error,
) -> bool {
    exists|k: int, answer: Result<Option<Vec<T>>, Error>|
        0 <= k < inputs@.len() && #[trigger] call_ensures(
            P::predict_chunk,
            (predict, inputs@[k], horizon, lane_row(episodes, k)),
            answer,
        ) && match answer {
            Err(failure) => error == failure,
            Ok(None) => is_model_error(error, chunkless_text()),
            Ok(Some(chunk)) => native_chunk matches Some(native) && chunk@.len() != native
                && is_model_error(error, sliced_chunk_text(native, chunk@.len(), horizon)),
        }
}

/// Whether `frames` is what the batched corner served: the model's one
/// action per lane for `inputs`, each as a single frame.
pub open spec fn batch_served<T, P: PredictFn<T>>(
    predict: &P,
    inputs: Vec<T>,
    episodes: &Vec<EpisodeInfo>,
    num_envs: usize,
    frames: Seq<Vec<T>>,
) -> bool {
    exists|actions: Vec<T>|
        #[trigger] call_ensures(P::predict_batch, (predict, inputs, episodes), Ok::<Vec<T>, Error>(actions))
            && actions@.len() == num_envs && frames.len() == num_envs && forall|k: int|
            0 <= k < num_envs ==> (#[trigger] frames[k])@ == seq![actions@[k]]
}

/// Whether `error` is how the batched corner failed: the model's own failure
/// or a wrong number of actions.
pub open spec fn batch_failed<T, P: PredictFn<T>>(
    predict: &P,
    inputs: Vec<T>,
    episodes: &Vec<EpisodeInfo>,
    num_envs: usize,
    error: Error,
) -> bool {
    exists|answer: Result<Vec<T>, Error>|
        #[trigger] call_ensures(P::predict_batch, (predict, inputs, episodes), answer) && match answer {
            Err(failure) => error == failure,
            Ok(actions) => actions@.len() != num_envs && is_model_error(
                error,
                batch_count_text("predict_batch"@, "actions"@, actions@.len(), num_envs as nat),
            ),
        }
}

/// Whether lane `k` of `frames` is what the per-lane loop served it: the
/// action for the lane's own input and episode row, as a single frame.
pub open spec fn lane_action_served<T, P: PredictFn<T>>(
    predict: &P,
    inputs: Vec<T>,
    episodes: &Vec<EpisodeInfo>,
    frames: Seq<Vec<T>>,
    k: int,
) -> bool {
    exists|action: T|
        #[trigger] call_ensures(
            P::predict,
            (predict, inputs@[k], lane_row(episodes, k)),
            Ok::<T, Error>(action),
        ) && frames[k]@ == seq![action]
}

/// Whether `frames` is what the per-lane loop served, lane by lane (see
/// [`lane_action_served`]).
pub open spec fn per_lane_served<T, P: PredictFn<T>>(
    predict: &P,
    inputs: Vec<T>,
    episodes: &Vec<EpisodeInfo>,
    frames: Seq<Vec<T>>,
) -> bool {
    frames.len() == inputs@.len() && forall|k: int|
        0 <= k < inputs@.len() ==> #[trigger] lane_action_served(predict, inputs, episodes, frames, k)
}

/// Whether `error` is the model's failure on some lane of the per-lane loop.
pub open spec fn per_lane_failed<T, P: PredictFn<T>>(
    predict: &P,
    inputs: Vec<T>,
    episodes: &Vec<EpisodeInfo>,
    error: Error,
) -> bool {
    exists|k: int|
        0 <= k < inputs@.len() && #[trigger] call_ensures(
            P::predict,
            (predict, inputs@[k], lane_row(episodes, k)),
            Err::<T, Error>(error),
        )
}

/// What a predict dispatched at `horizon` gives: a refusal of episode rows
/// that do not match the lanes, before the model runs; otherwise what the
/// corner [`spec_select_corner`] picks served or how it failed.
pub open spec fn dispatch_outcome<T, P: PredictFn<T>>(
    predict: &P,
    support: CornerSupport,
    native_chunk: Option<u32>,
    inputs: Vec<T>,
    episodes: &Vec<EpisodeInfo>,
    horizon: u32,
    num_envs: usize,
    dispatched: Result<Vec<Vec<T>>, Error>,
) -> bool {
    if episodes@.len() != num_envs {
        dispatched is Err && is_model_error(
            dispatched->Err_0,
            episode_rows_text(episodes@.len(), num_envs as nat),
        )
    } else {
        match spec_select_corner(support, horizon) {
            Corner::ChunkBatch => match dispatched {
                Ok(frames) => chunk_batch_served(
                    predict,
                    inputs,
                    episodes,
                    horizon,
                    native_chunk,
                    num_envs,
                    frames@,
                ),
                Err(error) => chunk_batch_failed(
                    predict,
                    inputs,
                    episodes,
                    horizon,
                    native_chunk,
                    num_envs,
                    error,
                ),
            },
            Corner::Chunk => match dispatched {
                Ok(frames) => chunk_served(predict, inputs, episodes, horizon, native_chunk, frames@),
                Err(error) => chunk_failed(predict, inputs, episodes, horizon, native_chunk, error),
            },
            Corner::Batch => match dispatched {
                Ok(frames) => batch_served(predict, inputs, episodes, num_envs, frames@),
                Err(error) => batch_failed(predict, inputs, episodes, num_envs, error),
            },
            Corner::PerLane => match dispatched {
                Ok(frames) => per_lane_served(predict, inputs, episodes, frames@),
                Err(error) => per_lane_failed(predict, inputs, episodes, error),
            },
        }
    }
}

/// Dispatch a predict to the most specific corner the model defines (see
/// [`spec_select_corner`]), yielding each lane's frames: a chunk corner's output
/// capped to the execution prefix, a single-action corner's output as one frame.
///
/// Episode identity is row-aligned with the lanes on every corner; a predict
/// whose episode rows do not match its lanes fails before the model runs. A
/// batched corner that returns the wrong number of outputs, and a chunk corner
/// that returns no chunk, fail the predict; a model failure is returned as is.
pub fn dispatch_corners<T, P: PredictFn<T>>(
    predict: &P,
    support: CornerSupport,
    native_chunk: Option<u32>,
    inputs: Vec<T>,
    episodes: &Vec<EpisodeInfo>,
    horizon: u32,
    num_envs: usize,
    short_chunk_warned: &mut bool,
) -> (dispatched: Result<Vec<Vec<T>>, Error>)
    ensures
        dispatch_outcome(predict, support, native_chunk, inputs, episodes, horizon, num_envs, dispatched),
        *old(short_chunk_warned) ==> *final(short_chunk_warned),
        native_chunk is Some || !(spec_select_corner(support, horizon) == Corner::ChunkBatch
            || spec_select_corner(support, horizon) == Corner::Chunk) ==> *final(short_chunk_warned)
            == *old(short_chunk_warned),
{
    let ghost given = inputs;
    match check_episode_rows(episodes.len(), num_envs) {
        Ok(()) => {},
        Err(error) => return Err(error),
    }
    let corner = select_corner(support, horizon);
    match corner {
        Corner::ChunkBatch => {
            let answer = predict.predict_chunk_batch(inputs, horizon, episodes);
            let ghost answer_view = answer;
            let chunks = match answer {
                Ok(chunks) => chunks,
                Err(error) => {
                    assert(chunk_batch_failed(predict, given, episodes, horizon, native_chunk, num_envs, error)) by {
                        assert(call_ensures(P::predict_chunk_batch, (predict, given, horizon, episodes), answer_view));
                    }
                    return Err(error);
                },
            };
            let ghost chunks_view = chunks;
            match check_batch_outputs("predict_chunk_batch", "chunks", chunks.len(), num_envs) {
                Ok(()) => {},
                Err(error) => {
                    assert(chunk_batch_failed(predict, given, episodes, horizon, native_chunk, num_envs, error)) by {
                        assert(call_ensures(P::predict_chunk_batch, (predict, given, horizon, episodes), answer_view));
                    }
                    return Err(error);
                },
            }
            let prefixed = prefix_chunks(chunks, horizon, native_chunk, short_chunk_warned);
            proof {
                assert(call_ensures(
                    P::predict_chunk_batch,
                    (predict, given, horizon, episodes),
                    Ok::<Vec<Vec<T>>, Error>(chunks_view),
                ));
                if prefixed is Ok {
                    assert(chunk_batch_served(
                        predict,
                        given,
                        episodes,
                        horizon,
                        native_chunk,
                        num_envs,
                        prefixed->Ok_0@,
                    ));
                } else {
                    assert(chunk_batch_failed(
                        predict,
                        given,
                        episodes,
                        horizon,
                        native_chunk,
                        num_envs,
                        prefixed->Err_0,
                    ));
                }
            }
            prefixed
        },
        Corner::Chunk => {
            let total = inputs.len();
            let mut rest = inputs;
            let mut out: Vec<Vec<T>> = Vec::new();
            let mut index: usize = 0;
            while rest.len() > 0
                invariant
                    given == inputs,
                    total == given@.len(),
                    index + rest@.len() == total,
                    rest@ == given@.skip(index as int),
                    out@.len() == index,
                    horizon > 1,
                    spec_select_corner(support, horizon) == Corner::Chunk,
                    episodes@.len() == num_envs,
                    forall|k: int|
                        0 <= k < index ==> #[trigger] lane_chunk_served(
                            predict,
                            given,
                            episodes,
                            horizon,
                            native_chunk,
                            out@,
                            k,
                        ),
                    *old(short_chunk_warned) ==> *short_chunk_warned,
                    native_chunk is Some ==> *short_chunk_warned == *old(short_chunk_warned),
                decreases rest@.len(),
            {
                let input = rest.remove(0);
                assert(input == given@[index as int]);
                let row = episode_row(episodes, index);
                let answer = predict.predict_chunk(input, horizon, row);
                let ghost answer_view = answer;
                assert(call_ensures(
                    P::predict_chunk,
                    (predict, given@[index as int], horizon, lane_row(episodes, index as int)),
                    answer_view,
                ));
                let chunk = match answer {
                    Ok(Some(chunk)) => chunk,
                    Ok(None) => {
                        let error = Error::model(
                            String::from_str(
                                "model reports a chunk corner (has_chunk) but predict_chunk returned None",
                            ),
                        );
                        assert(chunk_failed(predict, given, episodes, horizon, native_chunk, error));
                        return Err(error);
                    },
                    Err(error) => {
                        assert(chunk_failed(predict, given, episodes, horizon, native_chunk, error));
                        return Err(error);
                    },
                };
                let ghost chunk_view = chunk;
                let frames = match take_prefix(chunk, horizon, native_chunk, short_chunk_warned) {
                    Ok(frames) => frames,
                    Err(error) => {
                        assert(chunk_failed(predict, given, episodes, horizon, native_chunk, error));
                        return Err(error);
                    },
                };
                let ghost before = out@;
                out.push(frames);
                proof {
                    assert forall|k: int| 0 <= k < index + 1 implies #[trigger] lane_chunk_served(
                        predict,
                        given,
                        episodes,
                        horizon,
                        native_chunk,
                        out@,
                        k,
                    ) by {
                        if k < index {
                            assert(lane_chunk_served(predict, given, episodes, horizon, native_chunk, before, k));
                            assert(out@[k] == before[k]);
                        } else {
                            assert(call_ensures(
                                P::predict_chunk,
                                (predict, given@[k], horizon, lane_row(episodes, k)),
                                Ok::<Option<Vec<T>>, Error>(Some(chunk_view)),
                            ));
                        }
                    }
                }
                index = index + 1;
                assert(rest@ =~= given@.skip(index as int));
            }
            assert(chunk_served(predict, given, episodes, horizon, native_chunk, out@));
            Ok(out)
        },
        Corner::Batch => {
            let answer = predict.predict_batch(inputs, episodes);
            let ghost answer_view = answer;
            assert(call_ensures(P::predict_batch, (predict, given, episodes), answer_view));
            let actions = match answer {
                Ok(actions) => actions,
                Err(error) => {
                    assert(batch_failed(predict, given, episodes, num_envs, error));
                    return Err(error);
                },
            };
            let ghost actions_view = actions;
            match check_batch_outputs("predict_batch", "actions", actions.len(), num_envs) {
                Ok(()) => {},
                Err(error) => {
                    assert(batch_failed(predict, given, episodes, num_envs, error));
                    return Err(error);
                },
            }
            let total = actions.len();
            let mut rest = actions;
            let mut out: Vec<Vec<T>> = Vec::new();
            while rest.len() > 0
                invariant
                    out@.len() + rest@.len() == total,
                    total == num_envs,
                    total == actions_view@.len(),
                    rest@ == actions_view@.skip(out@.len() as int),
                    forall|k: int| 0 <= k < out@.len() ==> (#[trigger] out@[k])@ == seq![actions_view@[k]],
                decreases rest@.len(),
            {
                let ghost done = out@.len();
                let action = rest.remove(0);
                assert(action == actions_view@[done as int]);
                let mut frame: Vec<T> = Vec::new();
                frame.push(action);
                out.push(frame);
                assert(rest@ =~= actions_view@.skip(out@.len() as int));
            }
            assert(call_ensures(P::predict_batch, (predict, given, episodes), Ok::<Vec<T>, Error>(actions_view)));
            assert(batch_served(predict, given, episodes, num_envs, out@));
            Ok(out)
        },
        Corner::PerLane => {
            let total = inputs.len();
            let mut rest = inputs;
            let mut out: Vec<Vec<T>> = Vec::new();
            let mut index: usize = 0;
            while rest.len() > 0
                invariant
                    given == inputs,
                    total == given@.len(),
                    episodes@.len() == num_envs,
                    spec_select_corner(support, horizon) == Corner::PerLane,
                    index + rest@.len() == total,
                    rest@ == given@.skip(index as int),
                    out@.len() == index,
                    forall|k: int|
                        0 <= k < index ==> #[trigger] lane_action_served(predict, given, episodes, out@, k),
                decreases rest@.len(),
            {
                let input = rest.remove(0);
                assert(input == given@[index as int]);
                let row = episode_row(episodes, index);
                let answer = predict.predict(input, row);
                let ghost answer_view = answer;
                assert(call_ensures(
                    P::predict,
                    (predict, given@[index as int], lane_row(episodes, index as int)),
                    answer_view,
                ));
                let action = match answer {
                    Ok(action) => action,
                    Err(error) => {
                        assert(per_lane_failed(predict, given, episodes, error));
                        return Err(error);
                    },
                };
                let ghost action_view = action;
                let mut frame: Vec<T> = Vec::new();
                frame.push(action);
                let ghost before = out@;
                out.push(frame);
                proof {
                    assert forall|k: int| 0 <= k < index + 1 implies #[trigger] lane_action_served(
                        predict,
                        given,
                        episodes,
                        out@,
                        k,
                    ) by {
                        if k < index {
                            assert(lane_action_served(predict, given, episodes, before, k));
                            assert(out@[k] == before[k]);
                        } else {
                            assert(out@[k]@ =~= seq![action_view]);
                            assert(call_ensures(
                                P::predict,
                                (predict, given@[k], lane_row(episodes, k)),
                                Ok::<T, Error>(action_view),
                            ));
                        }
                    }
                }
                index = index + 1;
                assert(rest@ =~= given@.skip(index as int));
            }
            assert(per_lane_served(predict, given, episodes, out@));
            Ok(out)
        },
    }
}

/// The sum of the first `upto` counts.
pub open spec fn count_sum(counts: Seq<usize>, upto: int) -> int
    decreases upto,
{
    if upto <= 0 {
        0
    } else {
        count_sum(counts, upto - 1) + counts[upto - 1]
    }
}

proof fn lemma_count_sum_monotone(counts: Seq<usize>, i: int, j: int)
    requires
        0 <= i <= j <= counts.len(),
    ensures
        0 <= count_sum(counts, i) <= count_sum(counts, j),
    decreases j,
{
    if j > i {
        lemma_count_sum_monotone(counts, i, j - 1);
    } else if i > 0 {
        lemma_count_sum_monotone(counts, i - 1, i - 1);
    }
}

/// Splitting by counts loses and reorders nothing: the parts, joined in
/// order, are the whole.
pub proof fn split_parts_rebuild_the_whole<T>(all: Seq<T>, counts: Seq<usize>, parts: Seq<Seq<T>>)
    requires
        count_sum(counts, counts.len() as int) == all.len(),
        parts.len() == counts.len(),
        forall|g: int|
            0 <= g < counts.len() ==> #[trigger] parts[g] == all.subrange(count_sum(counts, g), count_sum(counts, g + 1)),
    ensures
        parts.flatten() == all,
{
    lemma_parts_prefix(all, counts, parts, counts.len() as int);
    assert(parts.take(counts.len() as int) =~= parts);
    assert(all.subrange(0, all.len() as int) =~= all);
}

proof fn lemma_parts_prefix<T>(all: Seq<T>, counts: Seq<usize>, parts: Seq<Seq<T>>, n: int)
    requires
        0 <= n <= counts.len(),
        count_sum(counts, counts.len() as int) == all.len(),
        parts.len() == counts.len(),
        forall|g: int|
            0 <= g < counts.len() ==> #[trigger] parts[g] == all.subrange(count_sum(counts, g), count_sum(counts, g + 1)),
    ensures
        parts.take(n).flatten() == all.subrange(0, count_sum(counts, n)),
    decreases n,
{
    lemma_count_sum_monotone(counts, n, counts.len() as int);
    if n == 0 {
        assert(parts.take(0) =~= Seq::<Seq<T>>::empty());
        assert(all.subrange(0, 0) =~= Seq::<T>::empty());
    } else {
        lemma_parts_prefix(all, counts, parts, n - 1);
        lemma_count_sum_monotone(counts, n - 1, n);
        assert(parts.take(n) =~= parts.take(n - 1).push(parts[n - 1]));
        parts.take(n - 1).lemma_flatten_push(parts[n - 1]);
        assert(all.subrange(0, count_sum(counts, n)) =~= all.subrange(0, count_sum(counts, n - 1)) + all.subrange(
            count_sum(counts, n - 1),
            count_sum(counts, n),
        ));
    }
}

/// Split `all` into consecutive parts of `counts[g]` items each, in order: part
/// `g` is the slice after the first `g` counts.
pub fn split_by_counts<T>(all: Vec<T>, counts: &Vec<usize>) -> (parts: Vec<Vec<T>>)
    requires
        count_sum(counts@, counts@.len() as int) == all@.len(),
    ensures
        parts@.len() == counts@.len(),
        forall|g: int|
            0 <= g < counts@.len() ==> (#[trigger] parts@[g])@ == all@.subrange(
                count_sum(counts@, g),
                count_sum(counts@, g + 1),
            ),
{
    let ghost whole = all@;
    let mut rest = all;
    let mut parts: Vec<Vec<T>> = Vec::new();
    let mut g: usize = 0;
    while g < counts.len()
        invariant
            g <= counts@.len(),
            count_sum(counts@, counts@.len() as int) == whole.len(),
            0 <= count_sum(counts@, g as int) <= whole.len(),
            rest@ == whole.subrange(count_sum(counts@, g as int), whole.len() as int),
            parts@.len() == g,
            forall|k: int|
                0 <= k < g ==> (#[trigger] parts@[k])@ == whole.subrange(
                    count_sum(counts@, k),
                    count_sum(counts@, k + 1),
                ),
        decreases counts@.len() - g,
    {
        proof {
            lemma_count_sum_monotone(counts@, g + 1, counts@.len() as int);
            lemma_count_sum_monotone(counts@, g as int, g + 1);
        }
        let count = counts[g];
        let tail = rest.split_off(count);
        assert(rest@ =~= whole.subrange(count_sum(counts@, g as int), count_sum(counts@, g + 1)));
        assert(tail@ =~= whole.subrange(count_sum(counts@, g + 1), whole.len() as int));
        parts.push(rest);
        rest = tail;
        g = g + 1;
    }
    parts
}

/// One predict's per-lane actions plus any open-loop chunk replay frames.
///
/// `actions` is frame 0, one action per lane, applied this step. `replay[j]`
/// holds the per-lane actions for future step `j + 1`, applied without calling
/// the model again; an empty `replay` means the model is not chunking.
#[derive(Debug, Clone, PartialEq, Eq)]
pub struct PredictFrames<A> {
    /// Frame 0: one action per lane, applied this step.
    pub actions: Vec<A>,
    /// Future-step frames (`replay[step][lane]`); empty when not chunking.
    pub replay: Vec<Vec<A>>,
}

/// Whether `frames` is the finished form of the lanes' frames: frame 0 of
/// every lane as this step's actions, and the lanes' later frames transposed
/// into per-step batches up to the shortest lane.
pub open spec fn finishes<A>(frames: PredictFrames<A>, lanes: Seq<Vec<A>>) -> bool {
    let tails = tails_of(lanes);
    &&& frames.actions@.len() == lanes.len()
    &&& forall|l: int| 0 <= l < lanes.len() ==> frames.actions@[l] == (#[trigger] lanes[l])@[0]
    &&& frames.replay@.len() == min_len(tails)
    &&& forall|s: int| 0 <= s < frames.replay@.len() ==> (#[trigger] frames.replay@[s])@.len() == lanes.len()
    &&& forall|s: int, l: int|
        0 <= s < frames.replay@.len() && 0 <= l < lanes.len() ==> #[trigger] frames.replay@[s]@[l] == tails[l][s]
}

/// Finish one route's dispatched lane frames into [`PredictFrames`] (see
/// [`split_frames`]).
pub fn finish_route_frames<A>(lanes: Vec<Vec<A>>) -> (finished: Result<PredictFrames<A>, Error>)
    ensures
        (exists|l: int| 0 <= l < lanes@.len() && (#[trigger] lanes@[l])@.len() == 0) ==> finished is Err
            && is_model_error(finished->Err_0, "a chunked model returned an empty action chunk"@),
        (forall|l: int| 0 <= l < lanes@.len() ==> (#[trigger] lanes@[l])@.len() > 0) ==> finished is Ok
            && finishes(finished->Ok_0, lanes@),
{
    let ghost given = lanes@;
    match split_frames(lanes) {
        Ok((actions, replay)) => {
            let frames = PredictFrames { actions, replay };
            assert(finishes(frames, given));
            Ok(frames)
        },
        Err(error) => Err(error),
    }
}

/// Whether `result` is what [`finish_route_frames`] gives for `lanes`.
pub open spec fn is_finish_of<A>(result: Result<PredictFrames<A>, Error>, lanes: Seq<Vec<A>>) -> bool {
    &&& (exists|l: int| 0 <= l < lanes.len() && (#[trigger] lanes[l])@.len() == 0) ==> result is Err
        && is_model_error(result->Err_0, "a chunked model returned an empty action chunk"@)
    &&& (forall|l: int| 0 <= l < lanes.len() ==> (#[trigger] lanes[l])@.len() > 0) ==> result is Ok
        && finishes(result->Ok_0, lanes)
}

/// A grouped predict group whose lane inputs the route's adapter assembled.
pub struct PreparedGroup<T> {
    /// The assembled model input of each lane.
    pub inputs: Vec<T>,
    /// The episode identity of each lane, row-aligned with `inputs`.
    pub episodes: Vec<EpisodeInfo>,
    /// The execution horizon pinned on the group's route.
    pub horizon: u32,
    /// The group's lane count as its request states it.
    pub num_envs: usize,
    /// The signature of the assembled inputs, appended to a predict failure.
    pub summary: String,
}

/// One group of a grouped predict, as the routes map classified it.
pub enum GroupLane<T, O> {
    /// A spec-less route: served by the model's spec-less corner.
    SpecLess {
        /// The raw observation of the group.
        observation: O,
        /// The execution horizon pinned for the route.
        horizon: u32,
    },
    /// A spec'd route whose inputs were assembled.
    Prepared(PreparedGroup<T>),
    /// A spec'd route whose input assembly failed.
    Failed(Error),
}

/// The lane counts of `groups`.
pub open spec fn lane_counts<T>(groups: Seq<PreparedGroup<T>>) -> Seq<usize> {
    Seq::new(groups.len(), |g: int| groups[g].inputs@.len() as usize)
}

/// Whether `results` is the broadcast of one fused failure: every group
/// receives the same error, annotated with its own input signature.
pub open spec fn is_broadcast_failure<T, A>(
    results: Seq<Result<PredictFrames<A>, Error>>,
    groups: Seq<PreparedGroup<T>>,
    error: Error,
) -> bool {
    forall|g: int|
        0 <= g < groups.len() ==> (#[trigger] results[g]) is Err && is_annotation_of(
            results[g]->Err_0,
            error,
            groups[g].summary@,
        )
}

/// Whether `results` splits the fused frames `all` back per group and
/// finishes each group's slice.
pub open spec fn is_split_finish<T>(
    results: Seq<Result<PredictFrames<T>, Error>>,
    groups: Seq<PreparedGroup<T>>,
    all: Seq<Vec<T>>,
) -> bool {
    let counts = lane_counts(groups);
    &&& all.len() == count_sum(counts, counts.len() as int)
    &&& forall|g: int|
        0 <= g < groups.len() ==> is_finish_of(
            #[trigger] results[g],
            all.subrange(count_sum(counts, g), count_sum(counts, g + 1)),
        )
}

/// The lane inputs of `groups`, concatenated in group order.
pub open spec fn fused_inputs<T>(groups: Seq<PreparedGroup<T>>) -> Seq<T>
    decreases groups.len(),
{
    if groups.len() == 0 {
        Seq::empty()
    } else {
        fused_inputs(groups.drop_last()) + groups.last().inputs@
    }
}

/// The episode rows of `groups`, concatenated in group order.
pub open spec fn fused_rows<T>(groups: Seq<PreparedGroup<T>>) -> Seq<EpisodeInfo>
    decreases groups.len(),
{
    if groups.len() == 0 {
        Seq::empty()
    } else {
        fused_rows(groups.drop_last()) + groups.last().episodes@
    }
}

/// The message of a fused predict whose concatenated episode rows do not
/// match its concatenated lanes.
pub open spec fn fused_rows_text(rows: nat, lanes: nat) -> Seq<char> {
    "fused predict concatenated "@ + decimal(rows) + " episode rows for "@ + decimal(lanes) + " lanes"@
}

/// Whether `dispatched` is what the one fused call of a bucket gave: the
/// groups' lanes and episode rows, concatenated in group order, dispatched as
/// one predict at the bucket's horizon; an internal failure where the rows do
/// not match the lanes.
pub open spec fn fused_dispatch<T, P: PredictFn<T>>(
    predict: &P,
    support: CornerSupport,
    native_chunk: Option<u32>,
    groups: Seq<PreparedGroup<T>>,
    horizon: u32,
    dispatched: Result<Vec<Vec<T>>, Error>,
) -> bool {
    let inputs = fused_inputs(groups);
    let rows = fused_rows(groups);
    if rows.len() == inputs.len() {
        exists|flat: Vec<T>, flat_rows: Vec<EpisodeInfo>|
            flat@ == inputs && flat_rows@ == rows && #[trigger] dispatch_outcome(
                predict,
                support,
                native_chunk,
                flat,
                &flat_rows,
                horizon,
                inputs.len() as usize,
                dispatched,
            )
    } else {
        dispatched matches Err(Error::Internal(message)) && message@ == fused_rows_text(rows.len(), inputs.len())
    }
}

/// Whether `results` answers the groups of a fused bucket from its one call's
/// `dispatched` outcome: its frames split back per group and finished, or its
/// failure given to every group with the group's own input signature.
pub open spec fn fused_answers<T>(
    results: Seq<Result<PredictFrames<T>, Error>>,
    groups: Seq<PreparedGroup<T>>,
    dispatched: Result<Vec<Vec<T>>, Error>,
) -> bool {
    results.len() == groups.len() && match dispatched {
        Ok(all) => is_split_finish(results, groups, all@),
        Err(error) => is_broadcast_failure(results, groups, error),
    }
}

/// Serve one fused bucket of a grouped predict: the groups' lanes concatenate
/// in group order into one batched corner call, whose frames split back per
/// group by lane count and finish per group. A failure of that call is given
/// to every group of the bucket, variant and recoverability preserved, with
/// the group's own input signature appended.
pub fn serve_fused_bucket<T, P: PredictFn<T>>(
    predict: &P,
    support: CornerSupport,
    native_chunk: Option<u32>,
    groups: Vec<PreparedGroup<T>>,
    horizon: u32,
    short_chunk_warned: &mut bool,
) -> (results: Vec<Result<PredictFrames<T>, Error>>)
    requires
        spec_bucket_fuses(support, horizon),
    ensures
        results@.len() == groups@.len(),
        exists|dispatched: Result<Vec<Vec<T>>, Error>|
            #[trigger] fused_dispatch(predict, support, native_chunk, groups@, horizon, dispatched)
                && fused_answers(results@, groups@, dispatched),
        *old(short_chunk_warned) ==> *final(short_chunk_warned),
{
    let ghost given = groups@;
    let ghost all_counts = lane_counts(given);
    let count = groups.len();
    let mut flat: Vec<T> = Vec::new();
    let mut flat_episodes: Vec<EpisodeInfo> = Vec::new();
    let mut counts: Vec<usize> = Vec::new();
    let mut summaries: Vec<String> = Vec::new();
    let mut rest = groups;
    let mut g: usize = 0;
    while rest.len() > 0
        invariant
            count == given.len(),
            all_counts == lane_counts(given),
            g + rest@.len() == count,
            rest@ == given.skip(g as int),
            counts@ == all_counts.take(g as int),
            flat@.len() == count_sum(all_counts, g as int),
            flat@ == fused_inputs(given.take(g as int)),
            flat_episodes@ == fused_rows(given.take(g as int)),
            summaries@.len() == g,
            forall|k: int| 0 <= k < g ==> (#[trigger] summaries@[k])@ == given[k].summary@,
        decreases rest@.len(),
    {
        let group = rest.remove(0);
        assert(group == given[g as int]);
        let PreparedGroup { inputs, episodes, horizon: _, num_envs: _, summary } = group;
        let mut inputs = inputs;
        let mut episodes = episodes;
        assert(counts@.push(inputs@.len() as usize) =~= all_counts.take(g + 1));
        counts.push(inputs.len());
        flat.append(&mut inputs);
        flat_episodes.append(&mut episodes);
        summaries.push(summary);
        proof {
            assert(given.take(g + 1).drop_last() =~= given.take(g as int));
            assert(given.take(g + 1).last() == given[g as int]);
        }
        g = g + 1;
        assert(rest@ =~= given.skip(g as int));
    }
    assert(counts@ =~= all_counts);
    assert(given.take(count as int) =~= given);
    let total = flat.len();
    let ghost flat_view = flat;
    let fused = if flat_episodes.len() == total {
        dispatch_corners(
            predict,
            support,
            native_chunk,
            flat,
            &flat_episodes,
            horizon,
            total,
            short_chunk_warned,
        )
    } else {
        let mut message = String::from_str("fused predict concatenated ");
        message.append(number_text(flat_episodes.len() as u64).as_str());
        message.append(" episode rows for ");
        message.append(number_text(total as u64).as_str());
        message.append(" lanes");
        Err(Error::Internal(message))
    };
    let ghost fused_view = fused;
    proof {
        assert(flat_view@ == fused_inputs(given));
        assert(flat_episodes@ == fused_rows(given));
        assert(total == fused_inputs(given).len() as usize);
        if flat_episodes@.len() == total {
            assert(dispatch_outcome(
                predict,
                support,
                native_chunk,
                flat_view,
                &flat_episodes,
                horizon,
                total,
                fused_view,
            ));
        }
        assert(fused_dispatch(predict, support, native_chunk, given, horizon, fused_view));
    }
    let mut results: Vec<Result<PredictFrames<T>, Error>> = Vec::new();
    match fused {
        Ok(all) => {
            proof {
                lemma_fusion_keeps_the_direct_corner(support, horizon);
            }
            let ghost all_view = all@;
            let parts = split_by_counts(all, &counts);
            let mut rest_parts = parts;
            let mut k: usize = 0;
            while k < count
                invariant
                    count == given.len(),
                    all_counts == lane_counts(given),
                    counts@ == all_counts,
                    all_view.len() == count_sum(all_counts, count as int),
                    k <= count,
                    rest_parts@.len() == count - k,
                    forall|j: int|
                        0 <= j < count - k ==> (#[trigger] rest_parts@[j])@ == all_view.subrange(
                            count_sum(all_counts, k + j),
                            count_sum(all_counts, k + j + 1),
                        ),
                    results@.len() == k,
                    forall|j: int|
                        0 <= j < k ==> is_finish_of(
                            #[trigger] results@[j],
                            all_view.subrange(count_sum(all_counts, j), count_sum(all_counts, j + 1)),
                        ),
                decreases count - k,
            {
                let ghost before = rest_parts@;
                let part = rest_parts.remove(0);
                assert(part@ == all_view.subrange(count_sum(all_counts, k as int), count_sum(all_counts, k + 1)));
                let finished = finish_route_frames(part);
                results.push(finished);
                proof {
                    assert forall|j: int| 0 <= j < count - (k + 1) implies (#[trigger] rest_parts@[j])@
                        == all_view.subrange(
                        count_sum(all_counts, k + 1 + j),
                        count_sum(all_counts, k + 1 + j + 1),
                    ) by {
                        assert(rest_parts@[j] == before[j + 1]);
                    }
                }
                k = k + 1;
            }
            assert(is_split_finish(results@, given, all_view));
        },
        Err(error) => {
            let mut k: usize = 0;
            while k < count
                invariant
                    count == given.len(),
                    summaries@.len() == count,
                    forall|j: int| 0 <= j < count ==> (#[trigger] summaries@[j])@ == given[j].summary@,
                    k <= count,
                    results@.len() == k,
                    forall|j: int|
                        0 <= j < k ==> (#[trigger] results@[j]) is Err && is_annotation_of(
                            results@[j]->Err_0,
                            error,
                            given[j].summary@,
                        ),
                decreases count - k,
            {
                let annotated = annotate_predict_error(error.duplicate(), summaries[k].as_str());
                results.push(Err(annotated));
                k = k + 1;
            }
            assert(is_broadcast_failure(results@, given, error));
        },
    }
    assert(fused_answers(results@, given, fused_view));
    results
}

/// The prepared groups among `lanes`, as `(lane index, pinned horizon)`
/// pairs in lane order.
pub open spec fn prepared_pairs<T, O>(lanes: Seq<GroupLane<T, O>>) -> Seq<(usize, u32)>
    decreases lanes.len(),
{
    if lanes.len() == 0 {
        Seq::empty()
    } else {
        let before = prepared_pairs(lanes.drop_last());
        match lanes.last() {
            GroupLane::Prepared(group) => before.push(((lanes.len() - 1) as usize, group.horizon)),
            _ => before,
        }
    }
}

/// The lanes of the prepared groups whose bucket is `horizon`, in lane order.
pub open spec fn bucket_lanes<T, O>(lanes: Seq<GroupLane<T, O>>, horizon: u32) -> Seq<usize> {
    groups_at(prepared_pairs(lanes), horizon)
}

/// The prepared groups whose bucket is `horizon`, in lane order.
pub open spec fn bucket_groups<T, O>(lanes: Seq<GroupLane<T, O>>, horizon: u32) -> Seq<PreparedGroup<T>> {
    bucket_lanes(lanes, horizon).map_values(|i: usize| lanes[i as int]->Prepared_0)
}

/// Whether `result` is what a prepared group served on its own gets from its
/// dispatch outcome: its frames finished, or the failure with the group's
/// input signature appended.
pub open spec fn routed_answer<T>(
    dispatched: Result<Vec<Vec<T>>, Error>,
    summary: Seq<char>,
    result: Result<PredictFrames<T>, Error>,
) -> bool {
    match dispatched {
        Ok(raw) => is_finish_of(result, raw@),
        Err(error) => result is Err && is_annotation_of(result->Err_0, error, summary),
    }
}

/// Whether `result` answers `lane` of a grouped predict on its own: an
/// assembly failure as is; a spec-less group with the model's spec-less
/// corner on its observation and horizon; a prepared group of a bucket that
/// does not fuse with its own dispatch at its bucket's horizon (a fused
/// bucket is answered as a whole, see [`bucket_answered`]).
pub open spec fn lane_answered<T, P: PredictFn<T>>(
    predict: &P,
    support: CornerSupport,
    native_chunk: Option<u32>,
    lane: GroupLane<T, P::Observation>,
    result: Result<PredictFrames<T>, Error>,
) -> bool {
    match lane {
        GroupLane::Failed(error) => result == Err::<PredictFrames<T>, Error>(error),
        GroupLane::SpecLess { observation, horizon } => call_ensures(
            P::predict_spec_less_chunked,
            (predict, observation, horizon),
            result,
        ),
        GroupLane::Prepared(group) => spec_bucket_fuses(support, bucket_horizon(group.horizon)) || exists|
            dispatched: Result<Vec<Vec<T>>, Error>,
        |
            #[trigger] dispatch_outcome(
                predict,
                support,
                native_chunk,
                group.inputs,
                &group.episodes,
                bucket_horizon(group.horizon),
                group.num_envs,
                dispatched,
            ) && routed_answer(dispatched, group.summary@, result),
    }
}

/// Whether the groups of the fused bucket `horizon` are answered from one
/// fused call over all of them (see [`fused_dispatch`], [`fused_answers`]).
pub open spec fn bucket_answered<T, P: PredictFn<T>>(
    predict: &P,
    support: CornerSupport,
    native_chunk: Option<u32>,
    lanes: Seq<GroupLane<T, P::Observation>>,
    horizon: u32,
    results: Seq<Result<PredictFrames<T>, Error>>,
) -> bool {
    exists|dispatched: Result<Vec<Vec<T>>, Error>|
        #[trigger] fused_dispatch(predict, support, native_chunk, bucket_groups(lanes, horizon), horizon, dispatched)
            && fused_answers(
            bucket_lanes(lanes, horizon).map_values(|i: usize| results[i as int]),
            bucket_groups(lanes, horizon),
            dispatched,
        )
}

/// Whether `results` answers every lane of a grouped predict, for the corners
/// `support` and the declared `native_chunk` the model gave when asked: one
/// result per lane, in lane order, each lane answered on its own or with its
/// fused bucket.
pub open spec fn grouped_answers<T, P: PredictFn<T>>(
    predict: &P,
    support: CornerSupport,
    native_chunk: Option<u32>,
    lanes: Seq<GroupLane<T, P::Observation>>,
    results: Seq<Result<PredictFrames<T>, Error>>,
) -> bool {
    &&& call_ensures(P::has_batch, (predict,), support.batch)
    &&& call_ensures(P::has_chunk, (predict,), support.chunk)
    &&& call_ensures(P::has_chunk_batch, (predict,), support.chunk_batch)
    &&& call_ensures(P::native_chunk, (predict,), native_chunk)
    &&& results.len() == lanes.len()
    &&& forall|i: int|
        0 <= i < lanes.len() ==> #[trigger] lane_answered(predict, support, native_chunk, lanes[i], results[i])
    &&& forall|horizon: u32|
        bucket_horizons(prepared_pairs(lanes)).contains(horizon) && spec_bucket_fuses(support, horizon)
            ==> #[trigger] bucket_answered(predict, support, native_chunk, lanes, horizon, results)
}

proof fn lemma_groups_at_push(pairs: Seq<(usize, u32)>, pair: (usize, u32), horizon: u32)
    ensures
        groups_at(pairs.push(pair), horizon) == if bucket_horizon(pair.1) == horizon {
            groups_at(pairs, horizon).push(pair.0)
        } else {
            groups_at(pairs, horizon)
        },
{
    assert(pairs.push(pair).drop_last() =~= pairs);
}

proof fn lemma_groups_at_horizon(pairs: Seq<(usize, u32)>, horizon: u32)
    requires
        groups_at(pairs, horizon).len() > 0,
    ensures
        bucket_horizons(pairs).contains(horizon),
    decreases pairs.len(),
{
    if bucket_horizon(pairs.last().1) == horizon {
        assert(bucket_horizon(pairs[pairs.len() - 1].1) == horizon);
    } else {
        lemma_groups_at_horizon(pairs.drop_last(), horizon);
        let p = choose|p: int|
            0 <= p < pairs.drop_last().len() && bucket_horizon(pairs.drop_last()[p].1) == horizon;
        assert(pairs.drop_last()[p] == pairs[p]);
    }
}

/// The lanes of a bucket are exactly its prepared groups' lanes, in strictly
/// increasing order.
proof fn lemma_bucket_lanes<T, O>(lanes: Seq<GroupLane<T, O>>, horizon: u32)
    requires
        lanes.len() <= usize::MAX,
    ensures
        forall|m: int|
            0 <= m < bucket_lanes(lanes, horizon).len() ==> {
                let i = #[trigger] bucket_lanes(lanes, horizon)[m] as int;
                &&& 0 <= i < lanes.len()
                &&& lanes[i] is Prepared
                &&& bucket_horizon(lanes[i]->Prepared_0.horizon) == horizon
            },
        forall|m1: int, m2: int|
            0 <= m1 < m2 < bucket_lanes(lanes, horizon).len() ==> #[trigger] bucket_lanes(lanes, horizon)[m1]
                < #[trigger] bucket_lanes(lanes, horizon)[m2],
        forall|i: int|
            0 <= i < lanes.len() && #[trigger] lanes[i] is Prepared && bucket_horizon(
                lanes[i]->Prepared_0.horizon,
            ) == horizon ==> exists|m: int|
                0 <= m < bucket_lanes(lanes, horizon).len() && bucket_lanes(lanes, horizon)[m] == i,
    decreases lanes.len(),
{
    if lanes.len() > 0 {
        let prev = lanes.drop_last();
        let n = lanes.len() - 1;
        lemma_bucket_lanes(prev, horizon);
        let before = bucket_lanes(prev, horizon);
        let now = bucket_lanes(lanes, horizon);
        assert(lanes.last() == lanes[n]);
        let grows = lanes[n] is Prepared && bucket_horizon(lanes[n]->Prepared_0.horizon) == horizon;
        if lanes[n] is Prepared {
            lemma_groups_at_push(prepared_pairs(prev), (n as usize, lanes[n]->Prepared_0.horizon), horizon);
        }
        if grows {
            assert(now == before.push(n as usize));
        } else {
            assert(now == before);
        }
        assert forall|i: int| 0 <= i < n implies #[trigger] lanes[i] == prev[i] by {}
        assert forall|m: int| 0 <= m < now.len() implies {
            let i = #[trigger] now[m] as int;
            &&& 0 <= i < lanes.len()
            &&& lanes[i] is Prepared
            &&& bucket_horizon(lanes[i]->Prepared_0.horizon) == horizon
        } by {
            if m < before.len() {
                let i = before[m] as int;
                assert(now[m] == before[m]);
                assert(lanes[i] == prev[i]);
            } else {
                assert(now[m] == n as usize);
            }
        }
        assert forall|m1: int, m2: int| 0 <= m1 < m2 < now.len() implies #[trigger] now[m1] < #[trigger] now[m2] by {
            assert(now[m1] == before[m1]);
            if m2 < before.len() {
                assert(now[m2] == before[m2]);
            } else {
                assert(now[m2] == n as usize);
                assert(before[m1] < prev.len());
            }
        }
        assert forall|i: int|
            0 <= i < lanes.len() && #[trigger] lanes[i] is Prepared && bucket_horizon(lanes[i]->Prepared_0.horizon)
                == horizon implies exists|m: int| 0 <= m < now.len() && now[m] == i by {
            if i < n {
                assert(lanes[i] == prev[i]);
                assert(prev[i] is Prepared);
                let m = choose|m: int| 0 <= m < before.len() && before[m] == i;
                assert(now[m] == before[m]);
            } else {
                assert(now[before.len() as int] == i);
            }
        }
    }
}

fn replace_at<X>(items: &mut Vec<X>, index: usize, item: X)
    requires
        index < old(items)@.len(),
    ensures
        final(items)@ == old(items)@.update(index as int, item),
{
    items.remove(index);
    items.insert(index, item);
    assert(items@ =~= old(items)@.update(index as int, item));
}

/// Whether the bucket of `horizon` has been served once the first `b`
/// buckets (ascending) have.
spec fn bucket_done(horizon: u32, buckets: Seq<HorizonBucket>, b: int) -> bool {
    b >= buckets.len() || horizon < buckets[b].horizon
}

/// The state of lane `j`'s slot while a grouped predict is served: a lane
/// that is not a prepared group is answered at once; a prepared group waits
/// (held) until its bucket is served, then holds its answer, or for a fused
/// bucket the answer at its `position` among the bucket's `fused` results.
spec fn slot_state<T, P: PredictFn<T>>(
    predict: &P,
    support: CornerSupport,
    native_chunk: Option<u32>,
    lanes: Seq<GroupLane<T, P::Observation>>,
    j: int,
    slot: Option<Result<PredictFrames<T>, Error>>,
    held: Option<PreparedGroup<T>>,
    done: bool,
    fused: Map<u32, Seq<Result<PredictFrames<T>, Error>>>,
    position: int,
) -> bool {
    match lanes[j] {
        GroupLane::Prepared(group) => {
            let horizon = bucket_horizon(group.horizon);
            if done {
                &&& held is None
                &&& slot is Some
                &&& if spec_bucket_fuses(support, horizon) {
                    &&& fused.contains_key(horizon)
                    &&& 0 <= position < bucket_lanes(lanes, horizon).len()
                    &&& bucket_lanes(lanes, horizon)[position] == j
                    &&& slot->Some_0 == fused[horizon][position]
                } else {
                    lane_answered(predict, support, native_chunk, lanes[j], slot->Some_0)
                }
            } else {
                slot is None && held == Some(group)
            }
        },
        _ => held is None && slot is Some && lane_answered(predict, support, native_chunk, lanes[j], slot->Some_0),
    }
}

/// Whether lane `j` is a prepared group whose bucket is done.
spec fn lane_done<T, O>(lanes: Seq<GroupLane<T, O>>, j: int, buckets: Seq<HorizonBucket>, b: int) -> bool {
    lanes[j] is Prepared && bucket_done(bucket_horizon(lanes[j]->Prepared_0.horizon), buckets, b)
}

/// One bucket's service moves the served/waiting line past it: every lane's
/// slot state holds with the next bucket as the first one not yet served.
proof fn lemma_bucket_step<T, P: PredictFn<T>>(
    predict: &P,
    support: CornerSupport,
    native_chunk: Option<u32>,
    given: Seq<GroupLane<T, P::Observation>>,
    buckets: Seq<HorizonBucket>,
    b: int,
    pairs: Seq<(usize, u32)>,
    slots_start: Seq<Option<Result<PredictFrames<T>, Error>>>,
    slots: Seq<Option<Result<PredictFrames<T>, Error>>>,
    held_start: Seq<Option<PreparedGroup<T>>>,
    held: Seq<Option<PreparedGroup<T>>>,
    fused_start: Map<u32, Seq<Result<PredictFrames<T>, Error>>>,
    fused: Map<u32, Seq<Result<PredictFrames<T>, Error>>>,
    outcomes_start: Map<u32, Result<Vec<Vec<T>>, Error>>,
    outcomes: Map<u32, Result<Vec<Vec<T>>, Error>>,
    positions_start: Seq<int>,
    positions: Seq<int>,
)
    requires
        0 <= b < buckets.len(),
        given.len() <= usize::MAX,
        pairs == prepared_pairs(given),
        slots_start.len() == given.len(),
        slots.len() == given.len(),
        held_start.len() == given.len(),
        held.len() == given.len(),
        positions_start.len() == given.len(),
        positions.len() == given.len(),
        forall|c: int, d: int| 0 <= c < d < buckets.len() ==> (#[trigger] buckets[c]).horizon < (#[trigger] buckets[d]).horizon,
        forall|h: u32|
            bucket_horizons(pairs).contains(h) ==> exists|c: int| 0 <= c < buckets.len() && (#[trigger] buckets[c]).horizon == h,
        forall|j: int|
            0 <= j < given.len() ==> #[trigger] slot_state(
                predict,
                support,
                native_chunk,
                given,
                j,
                slots_start[j],
                held_start[j],
                lane_done(given, j, buckets, b),
                fused_start,
                positions_start[j],
            ),
        forall|c: int|
            0 <= c < b && spec_bucket_fuses(support, (#[trigger] buckets[c]).horizon) ==> fused_start.contains_key(
                buckets[c].horizon,
            ),
        forall|h: u32|
            #[trigger] fused_start.contains_key(h) ==> outcomes_start.contains_key(h) && fused_dispatch(
                predict,
                support,
                native_chunk,
                bucket_groups(given, h),
                h,
                outcomes_start[h],
            ) && fused_answers(fused_start[h], bucket_groups(given, h), outcomes_start[h]),
        forall|j: int|
            0 <= j < given.len() ==> #[trigger] held[j] == if bucket_lanes(given, buckets[b].horizon).contains(
                j as usize,
            ) {
                None
            } else {
                held_start[j]
            },
        forall|j: int|
            0 <= j < given.len() && !bucket_lanes(given, buckets[b].horizon).contains(j as usize) ==> #[trigger] slots[j]
                == slots_start[j] && positions[j] == positions_start[j],
        spec_bucket_fuses(support, buckets[b].horizon) ==> {
            let horizon = buckets[b].horizon;
            let members = bucket_lanes(given, horizon);
            &&& fused == fused_start.insert(horizon, fused[horizon])
            &&& outcomes == outcomes_start.insert(horizon, outcomes[horizon])
            &&& fused_dispatch(predict, support, native_chunk, bucket_groups(given, horizon), horizon, outcomes[horizon])
            &&& fused_answers(fused[horizon], bucket_groups(given, horizon), outcomes[horizon])
            &&& forall|m: int|
                0 <= m < members.len() ==> slots[#[trigger] members[m] as int] == Some(fused[horizon][m])
                    && positions[members[m] as int] == m
        },
        !spec_bucket_fuses(support, buckets[b].horizon) ==> {
            let members = bucket_lanes(given, buckets[b].horizon);
            &&& fused == fused_start
            &&& outcomes == outcomes_start
            &&& forall|m: int|
                0 <= m < members.len() ==> (#[trigger] slots[members[m] as int]) is Some && lane_answered(
                    predict,
                    support,
                    native_chunk,
                    given[members[m] as int],
                    slots[members[m] as int]->Some_0,
                )
        },
    ensures
        forall|j: int|
            0 <= j < given.len() ==> #[trigger] slot_state(
                predict,
                support,
                native_chunk,
                given,
                j,
                slots[j],
                held[j],
                lane_done(given, j, buckets, b + 1),
                fused,
                positions[j],
            ),
        forall|c: int|
            0 <= c < b + 1 && spec_bucket_fuses(support, (#[trigger] buckets[c]).horizon) ==> fused.contains_key(
                buckets[c].horizon,
            ),
        forall|h: u32|
            #[trigger] fused.contains_key(h) ==> outcomes.contains_key(h) && fused_dispatch(
                predict,
                support,
                native_chunk,
                bucket_groups(given, h),
                h,
                outcomes[h],
            ) && fused_answers(fused[h], bucket_groups(given, h), outcomes[h]),
{
    let horizon = buckets[b].horizon;
    let members = bucket_lanes(given, horizon);
    lemma_bucket_lanes(given, horizon);
    assert forall|j: int| 0 <= j < given.len() implies #[trigger] slot_state(
        predict,
        support,
        native_chunk,
        given,
        j,
        slots[j],
        held[j],
        lane_done(given, j, buckets, b + 1),
        fused,
        positions[j],
    ) by {
        assert(slot_state(
            predict,
            support,
            native_chunk,
            given,
            j,
            slots_start[j],
            held_start[j],
            lane_done(given, j, buckets, b),
            fused_start,
            positions_start[j],
        ));
        if given[j] is Prepared {
            let x = bucket_horizon(given[j]->Prepared_0.horizon);
            if x == horizon {
                let m = choose|m: int| 0 <= m < members.len() && members[m] == j;
                assert(members.contains(j as usize));
                if b + 1 < buckets.len() {
                    assert(buckets[b].horizon < buckets[b + 1].horizon);
                }
                if spec_bucket_fuses(support, horizon) {
                    assert(slots[members[m] as int] == Some(fused[horizon][m]));
                }
            } else {
                assert(!members.contains(j as usize)) by {
                    if members.contains(j as usize) {
                        let m = choose|m: int| 0 <= m < members.len() && members[m] == j as usize;
                        assert(bucket_horizon(given[members[m] as int]->Prepared_0.horizon) == horizon);
                    }
                }
                if x < horizon {
                    if b + 1 < buckets.len() {
                        assert(buckets[b].horizon < buckets[b + 1].horizon);
                    }
                } else {
                    lemma_bucket_lanes(given, x);
                    let m = choose|m: int| 0 <= m < bucket_lanes(given, x).len() && bucket_lanes(given, x)[m] == j;
                    lemma_groups_at_horizon(pairs, x);
                    let c = choose|c: int| 0 <= c < buckets.len() && (#[trigger] buckets[c]).horizon == x;
                    if c <= b {
                        if c < b {
                            assert(buckets[c].horizon < buckets[b].horizon);
                        }
                    }
                    assert(c > b);
                    if c > b + 1 {
                        assert(buckets[b + 1].horizon < buckets[c].horizon);
                    }
                }
            }
        } else {
            assert(!members.contains(j as usize)) by {
                if members.contains(j as usize) {
                    let m = choose|m: int| 0 <= m < members.len() && members[m] == j as usize;
                    assert(given[members[m] as int] is Prepared);
                }
            }
        }
    }
    assert forall|c: int|
        0 <= c < b + 1 && spec_bucket_fuses(support, (#[trigger] buckets[c]).horizon) implies fused.contains_key(
            buckets[c].horizon,
        ) by {
        if c < b {
            assert(fused_start.contains_key(buckets[c].horizon));
        }
    }
}

/// Once every bucket is served, the slots answer the grouped predict.
proof fn lemma_grouped_answers<T, P: PredictFn<T>>(
    predict: &P,
    support: CornerSupport,
    native_chunk: Option<u32>,
    given: Seq<GroupLane<T, P::Observation>>,
    buckets: Seq<HorizonBucket>,
    pairs: Seq<(usize, u32)>,
    slots: Seq<Option<Result<PredictFrames<T>, Error>>>,
    held: Seq<Option<PreparedGroup<T>>>,
    fused: Map<u32, Seq<Result<PredictFrames<T>, Error>>>,
    outcomes: Map<u32, Result<Vec<Vec<T>>, Error>>,
    positions: Seq<int>,
    results: Seq<Result<PredictFrames<T>, Error>>,
)
    requires
        call_ensures(P::has_batch, (predict,), support.batch),
        call_ensures(P::has_chunk, (predict,), support.chunk),
        call_ensures(P::has_chunk_batch, (predict,), support.chunk_batch),
        call_ensures(P::native_chunk, (predict,), native_chunk),
        given.len() <= usize::MAX,
        pairs == prepared_pairs(given),
        slots.len() == given.len(),
        held.len() == given.len(),
        positions.len() == given.len(),
        results.len() == given.len(),
        forall|h: u32|
            bucket_horizons(pairs).contains(h) ==> exists|c: int| 0 <= c < buckets.len() && (#[trigger] buckets[c]).horizon == h,
        forall|j: int|
            0 <= j < given.len() ==> #[trigger] slot_state(
                predict,
                support,
                native_chunk,
                given,
                j,
                slots[j],
                held[j],
                lane_done(given, j, buckets, buckets.len() as int),
                fused,
                positions[j],
            ),
        forall|c: int|
            0 <= c < buckets.len() && spec_bucket_fuses(support, (#[trigger] buckets[c]).horizon)
                ==> fused.contains_key(buckets[c].horizon),
        forall|h: u32|
            #[trigger] fused.contains_key(h) ==> outcomes.contains_key(h) && fused_dispatch(
                predict,
                support,
                native_chunk,
                bucket_groups(given, h),
                h,
                outcomes[h],
            ) && fused_answers(fused[h], bucket_groups(given, h), outcomes[h]),
        forall|m: int| 0 <= m < given.len() ==> #[trigger] results[m] == slots[m]->Some_0,
    ensures
        grouped_answers(predict, support, native_chunk, given, results),
{
    let done = buckets.len() as int;
    assert forall|i: int| 0 <= i < given.len() implies #[trigger] lane_answered(
        predict,
        support,
        native_chunk,
        given[i],
        results[i],
    ) by {
        assert(slot_state(
            predict,
            support,
            native_chunk,
            given,
            i,
            slots[i],
            held[i],
            lane_done(given, i, buckets, done),
            fused,
            positions[i],
        ));
        assert(results[i] == slots[i]->Some_0);
    }
    assert forall|horizon: u32|
        bucket_horizons(prepared_pairs(given)).contains(horizon) && spec_bucket_fuses(support, horizon)
            implies #[trigger] bucket_answered(predict, support, native_chunk, given, horizon, results) by {
        let c = choose|c: int| 0 <= c < buckets.len() && (#[trigger] buckets[c]).horizon == horizon;
        assert(fused.contains_key(horizon));
        let outcome = outcomes[horizon];
        let members = bucket_lanes(given, horizon);
        lemma_bucket_lanes(given, horizon);
        let answered = members.map_values(|i: usize| results[i as int]);
        assert(fused_answers(fused[horizon], bucket_groups(given, horizon), outcome));
        assert(answered =~= fused[horizon]) by {
            assert forall|m: int| 0 <= m < members.len() implies answered[m] == fused[horizon][m] by {
                let j = members[m] as int;
                assert(slot_state(
                    predict,
                    support,
                    native_chunk,
                    given,
                    j,
                    slots[j],
                    held[j],
                    lane_done(given, j, buckets, done),
                    fused,
                    positions[j],
                ));
                let p = positions[j];
                assert(members[p] == j);
                if p < m {
                    assert(members[p] < members[m]);
                } else if p > m {
                    assert(members[m] < members[p]);
                }
                assert(results[j] == slots[j]->Some_0);
            }
        }
        assert(fused_dispatch(predict, support, native_chunk, bucket_groups(given, horizon), horizon, outcome));
    }
}

/// Serve the prepared groups of a grouped predict, bucketed by execution
/// horizon (see [`plan_buckets`]). A bucket whose batched corner is the one a
/// direct predict would pick fuses into one model call
/// ([`serve_fused_bucket`]); any other bucket serves group by group through
/// the same dispatch as a direct predict, a failure annotated with the group's
/// input signature. A spec-less group is served by the model's spec-less
/// corner, and a group whose assembly failed is answered with that failure.
/// There is one result per group, in group order.
#[verifier::spinoff_prover]
pub fn predict_grouped_fused<T, P: PredictFn<T>>(
    predict: &P,
    lanes: Vec<GroupLane<T, P::Observation>>,
    short_chunk_warned: &mut bool,
) -> (results: Vec<Result<PredictFrames<T>, Error>>)
    ensures
        results@.len() == lanes@.len(),
        exists|support: CornerSupport, native_chunk: Option<u32>|
            #[trigger] grouped_answers(predict, support, native_chunk, lanes@, results@),
        *old(short_chunk_warned) ==> *final(short_chunk_warned),
{
    let ghost given = lanes@;
    let support = corner_support(predict);
    let native_chunk = predict.native_chunk();
    let count = lanes.len();
    let ghost mut fused: Map<u32, Seq<Result<PredictFrames<T>, Error>>> = Map::empty();
    let ghost mut outcomes: Map<u32, Result<Vec<Vec<T>>, Error>> = Map::empty();
    let ghost mut positions: Seq<int> = Seq::new(count as nat, |j: int| 0);
    let mut slots: Vec<Option<Result<PredictFrames<T>, Error>>> = Vec::new();
    let mut held: Vec<Option<PreparedGroup<T>>> = Vec::new();
    let mut pairs: Vec<(usize, u32)> = Vec::new();
    let mut rest = lanes;
    let mut i: usize = 0;
    while rest.len() > 0
        invariant
            count == given.len(),
            positions.len() == count,
            i + rest@.len() == count,
            rest@ == given.skip(i as int),
            slots@.len() == i,
            held@.len() == i,
            pairs@ == prepared_pairs(given.take(i as int)),
            forall|j: int|
                0 <= j < i ==> #[trigger] slot_state(
                    predict,
                    support,
                    native_chunk,
                    given,
                    j,
                    slots@[j],
                    held@[j],
                    false,
                    fused,
                    positions[j],
                ),
            *old(short_chunk_warned) == *short_chunk_warned,
        decreases rest@.len(),
    {
        let lane = rest.remove(0);
        assert(lane == given[i as int]);
        proof {
            assert(given.take(i + 1).drop_last() =~= given.take(i as int));
            assert(given.take(i + 1).last() == given[i as int]);
        }
        let ghost slots_before = slots@;
        let ghost held_before = held@;
        match lane {
            GroupLane::SpecLess { observation, horizon } => {
                let answer = predict.predict_spec_less_chunked(observation, horizon);
                slots.push(Some(answer));
                held.push(None);
            },
            GroupLane::Prepared(group) => {
                slots.push(None);
                pairs.push((i, group.horizon));
                held.push(Some(group));
            },
            GroupLane::Failed(error) => {
                slots.push(Some(Err(error)));
                held.push(None);
            },
        }
        proof {
            assert forall|j: int| 0 <= j < i + 1 implies #[trigger] slot_state(
                predict,
                support,
                native_chunk,
                given,
                j,
                slots@[j],
                held@[j],
                false,
                fused,
                positions[j],
            ) by {
                if j < i {
                    assert(slot_state(
                        predict,
                        support,
                        native_chunk,
                        given,
                        j,
                        slots_before[j],
                        held_before[j],
                        false,
                        fused,
                        positions[j],
                    ));
                }
            }
        }
        i = i + 1;
        assert(rest@ =~= given.skip(i as int));
    }
    assert(given.take(count as int) =~= given);
    let buckets = plan_buckets(&pairs);
    proof {
        // No prepared group lies below the first bucket or between buckets.
        assert forall|j: int| 0 <= j < count implies #[trigger] slot_state(
            predict,
            support,
            native_chunk,
            given,
            j,
            slots@[j],
            held@[j],
            lane_done(given, j, buckets@, 0),
            fused,
            positions[j],
        ) by {
            assert(slot_state(predict, support, native_chunk, given, j, slots@[j], held@[j], false, fused, positions[j]));
            if given[j] is Prepared {
                let x = bucket_horizon(given[j]->Prepared_0.horizon);
                lemma_bucket_lanes(given, x);
                lemma_groups_at_horizon(pairs@, x);
                let c = choose|c: int| 0 <= c < buckets@.len() && (#[trigger] buckets@[c]).horizon == x;
                if c > 0 {
                    assert(buckets@[0].horizon < buckets@[c].horizon);
                }
            }
        }
    }
    let mut b: usize = 0;
    while b < buckets.len()
        invariant
            count == given.len(),
            positions.len() == count,
            slots@.len() == count,
            held@.len() == count,
            pairs@ == prepared_pairs(given),
            forall|c: int, d: int|
                0 <= c < d < buckets@.len() ==> (#[trigger] buckets@[c]).horizon < (#[trigger] buckets@[d]).horizon,
            forall|h: u32|
                bucket_horizons(pairs@).contains(h) ==> exists|c: int|
                    0 <= c < buckets@.len() && (#[trigger] buckets@[c]).horizon == h,
            forall|c: int|
                0 <= c < buckets@.len() ==> (#[trigger] buckets@[c]).groups@ == groups_at(
                    pairs@,
                    buckets@[c].horizon,
                ),
            b <= buckets@.len(),
            forall|j: int|
                0 <= j < count ==> #[trigger] slot_state(
                    predict,
                    support,
                    native_chunk,
                    given,
                    j,
                    slots@[j],
                    held@[j],
                    lane_done(given, j, buckets@, b as int),
                    fused,
                    positions[j],
                ),
            forall|c: int|
                0 <= c < b && spec_bucket_fuses(support, (#[trigger] buckets@[c]).horizon)
                    ==> fused.contains_key(buckets@[c].horizon),
            forall|h: u32|
                #[trigger] fused.contains_key(h) ==> outcomes.contains_key(h) && fused_dispatch(
                    predict,
                    support,
                    native_chunk,
                    bucket_groups(given, h),
                    h,
                    outcomes[h],
                ) && fused_answers(fused[h], bucket_groups(given, h), outcomes[h]),
            *old(short_chunk_warned) ==> *short_chunk_warned,
        decreases buckets@.len() - b,
    {
        let horizon = buckets[b].horizon;
        let members = &buckets[b].groups;
        proof {
            lemma_bucket_lanes(given, horizon);
        }
        assert(members@ == bucket_lanes(given, horizon));
        let member_count = members.len();
        let ghost held_start = held@;
        let ghost slots_start = slots@;
        proof {
            assert forall|m: int| 0 <= m < members@.len() implies {
                let j = #[trigger] members@[m] as int;
                &&& 0 <= j < count
                &&& given[j] is Prepared
                &&& bucket_horizon(given[j]->Prepared_0.horizon) == horizon
                &&& held_start[j] == Some(given[j]->Prepared_0)
            } by {
                let j = members@[m] as int;
                assert(slot_state(
                    predict,
                    support,
                    native_chunk,
                    given,
                    j,
                    slots@[j],
                    held@[j],
                    lane_done(given, j, buckets@, b as int),
                    fused,
                    positions[j],
                ));
            }
        }
        let mut groups: Vec<PreparedGroup<T>> = Vec::new();
        let mut q: usize = 0;
        while q < members.len()
            invariant
                count == given.len(),
                held@.len() == count,
                held_start.len() == count,
                members@ == bucket_lanes(given, horizon),
                forall|m: int|
                    0 <= m < members@.len() ==> {
                        let j = #[trigger] members@[m] as int;
                        &&& 0 <= j < count
                        &&& given[j] is Prepared
                        &&& bucket_horizon(given[j]->Prepared_0.horizon) == horizon
                        &&& held_start[j] == Some(given[j]->Prepared_0)
                    },
                forall|m1: int, m2: int|
                    0 <= m1 < m2 < members@.len() ==> #[trigger] members@[m1] < #[trigger] members@[m2],
                q <= members@.len(),
                groups@.len() == q,
                forall|m: int| 0 <= m < q ==> #[trigger] groups@[m] == given[members@[m] as int]->Prepared_0,
                forall|j: int|
                    0 <= j < count ==> #[trigger] held@[j] == if members@.take(q as int).contains(j as usize) {
                        None
                    } else {
                        held_start[j]
                    },
            decreases members@.len() - q,
        {
            let p = members[q];
            let ghost before = held@;
            proof {
                assert(!members@.take(q as int).contains(p)) by {
                    if members@.take(q as int).contains(p) {
                        let m = choose|m: int| 0 <= m < q && members@.take(q as int)[m] == p;
                        assert(members@[m] < members@[q as int]);
                    }
                }
                assert(members@.take(q + 1) =~= members@.take(q as int).push(p));
            }
            if p < held.len() {
                let slot = held.remove(p);
                held.insert(p, None);
                assert(held@ =~= before.update(p as int, None));
                match slot {
                    Some(group) => {
                        groups.push(group);
                    },
                    None => {},
                }
            }
            proof {
                assert forall|j: int| 0 <= j < count implies #[trigger] held@[j] == if members@.take(
                    q + 1,
                ).contains(j as usize) {
                    None
                } else {
                    held_start[j]
                } by {
                    if j == p as int {
                        assert(members@.take(q + 1)[q as int] == p);
                    } else {
                        if members@.take(q as int).contains(j as usize) {
                            let m = choose|m: int| 0 <= m < q && members@.take(q as int)[m] == j as usize;
                            assert(members@.take(q + 1)[m] == j as usize);
                        }
                        if members@.take(q + 1).contains(j as usize) {
                            let m = choose|m: int| 0 <= m < q + 1 && #[trigger] members@.take(q + 1)[m] == j as usize;
                            assert(m != q);
                            assert(members@.take(q as int)[m] == j as usize);
                        }
                    }
                }
            }
            q = q + 1;
        }
        assert(members@.take(members@.len() as int) =~= members@);
        assert(groups@ =~= bucket_groups(given, horizon));
        let ghost fused_start = fused;
        let ghost outcomes_start = outcomes;
        let ghost positions_start = positions;
        if bucket_fuses(support, horizon) {
            let ghost group_view = groups@;
            let served = serve_fused_bucket(predict, support, native_chunk, groups, horizon, short_chunk_warned);
            let ghost served_view = served@;
            let ghost outcome = choose|dispatched: Result<Vec<Vec<T>>, Error>|
                #[trigger] fused_dispatch(predict, support, native_chunk, group_view, horizon, dispatched)
                    && fused_answers(served_view, group_view, dispatched);
            proof {
                fused = fused.insert(horizon, served_view);
                outcomes = outcomes.insert(horizon, outcome);
            }
            let mut rest_served = served;
            let mut k: usize = 0;
            while k < member_count
                invariant
                    count == given.len(),
                    slots@.len() == count,
                    positions.len() == count,
                    members@ == bucket_lanes(given, horizon),
                    served_view.len() == members@.len(),
                    member_count == members@.len(),
                    slots_start.len() == count,
                    positions_start.len() == count,
                    forall|m: int|
                        0 <= m < members@.len() ==> {
                            let j = #[trigger] members@[m] as int;
                            &&& 0 <= j < count
                            &&& given[j] is Prepared
                            &&& bucket_horizon(given[j]->Prepared_0.horizon) == horizon
                        },
                    forall|m1: int, m2: int|
                        0 <= m1 < m2 < members@.len() ==> #[trigger] members@[m1] < #[trigger] members@[m2],
                    k <= members@.len(),
                    rest_served@ == served_view.skip(k as int),
                    forall|m: int|
                        0 <= m < k ==> slots@[#[trigger] members@[m] as int] == Some(served_view[m])
                            && positions[members@[m] as int] == m,
                    forall|j: int|
                        0 <= j < count && !members@.take(k as int).contains(j as usize) ==> #[trigger] slots@[j]
                            == slots_start[j] && positions[j] == positions_start[j],
                decreases members@.len() - k,
            {
                let result = rest_served.remove(0);
                assert(result == served_view[k as int]);
                let target = members[k];
                replace_at(&mut slots, target, Some(result));
                proof {
                    positions = positions.update(target as int, k as int);
                    assert(members@.take(k + 1) =~= members@.take(k as int).push(target));
                    assert forall|m: int| 0 <= m < k + 1 implies slots@[#[trigger] members@[m] as int] == Some(
                        served_view[m],
                    ) && positions[members@[m] as int] == m by {
                        if m < k {
                            assert(members@[m] < members@[k as int]);
                        }
                    }
                    assert forall|j: int|
                        0 <= j < count && !members@.take(k + 1).contains(j as usize) implies #[trigger] slots@[j]
                            == slots_start[j] && positions[j] == positions_start[j] by {
                        assert(members@.take(k + 1)[k as int] == target);
                        assert(j != target);
                        if members@.take(k as int).contains(j as usize) {
                            let m = choose|m: int| 0 <= m < k && members@.take(k as int)[m] == j as usize;
                            assert(members@.take(k + 1)[m] == j as usize);
                        }
                    }
                }
                k = k + 1;
                assert(rest_served@ =~= served_view.skip(k as int));
            }
            assert(members@.take(members@.len() as int) =~= members@);
            proof {
                assert forall|j: int|
                    0 <= j < count && !bucket_lanes(given, horizon).contains(j as usize) implies #[trigger] slots@[j]
                        == slots_start[j] && positions[j] == positions_start[j] by {
                    assert(!members@.take(k as int).contains(j as usize));
                }
            }
        } else {
            let ghost groups_view = groups@;
            let mut rest_groups = groups;
            let mut k: usize = 0;
            while rest_groups.len() > 0
                invariant
                    count == given.len(),
                    slots@.len() == count,
                    groups_view == bucket_groups(given, horizon),
                    members@ == bucket_lanes(given, horizon),
                    !spec_bucket_fuses(support, horizon),
                    forall|m: int|
                        0 <= m < members@.len() ==> {
                            let j = #[trigger] members@[m] as int;
                            &&& 0 <= j < count
                            &&& given[j] is Prepared
                            &&& bucket_horizon(given[j]->Prepared_0.horizon) == horizon
                        },
                    forall|m1: int, m2: int|
                        0 <= m1 < m2 < members@.len() ==> #[trigger] members@[m1] < #[trigger] members@[m2],
                    k + rest_groups@.len() == members@.len(),
                    member_count == members@.len(),
                    rest_groups@ == groups_view.skip(k as int),
                    forall|m: int|
                        0 <= m < k ==> (#[trigger] slots@[members@[m] as int]) is Some && lane_answered(
                            predict,
                            support,
                            native_chunk,
                            given[members@[m] as int],
                            slots@[members@[m] as int]->Some_0,
                        ),
                    forall|j: int|
                        0 <= j < count && !members@.take(k as int).contains(j as usize) ==> #[trigger] slots@[j]
                            == slots_start[j],
                    *old(short_chunk_warned) ==> *short_chunk_warned,
                decreases rest_groups@.len(),
            {
                let group = rest_groups.remove(0);
                assert(group == groups_view[k as int]);
                let ghost group_view = group;
                let PreparedGroup { inputs, episodes, horizon: _, num_envs, summary } = group;
                let dispatched = dispatch_corners(
                    predict,
                    support,
                    native_chunk,
                    inputs,
                    &episodes,
                    horizon,
                    num_envs,
                    short_chunk_warned,
                );
                let ghost dispatched_view = dispatched;
                let result = match dispatched {
                    Ok(raw) => finish_route_frames(raw),
                    Err(error) => Err(annotate_predict_error(error, summary.as_str())),
                };
                let target = members[k];
                proof {
                    assert(given[target as int] == GroupLane::<T, P::Observation>::Prepared(group_view));
                    assert(routed_answer(dispatched_view, group_view.summary@, result));
                    assert(lane_answered(predict, support, native_chunk, given[target as int], result));
                }
                let ghost slots_before = slots@;
                replace_at(&mut slots, target, Some(result));
                proof {
                    assert(members@.take(k + 1) =~= members@.take(k as int).push(target));
                    assert forall|m: int| 0 <= m < k + 1 implies (#[trigger] slots@[members@[m] as int]) is Some
                        && lane_answered(
                        predict,
                        support,
                        native_chunk,
                        given[members@[m] as int],
                        slots@[members@[m] as int]->Some_0,
                    ) by {
                        if m < k {
                            assert(members@[m] < members@[k as int]);
                            assert(slots@[members@[m] as int] == slots_before[members@[m] as int]);
                        }
                    }
                    assert forall|j: int|
                        0 <= j < count && !members@.take(k + 1).contains(j as usize) implies #[trigger] slots@[j]
                            == slots_start[j] by {
                        assert(members@.take(k + 1)[k as int] == target);
                        assert(j != target);
                        if members@.take(k as int).contains(j as usize) {
                            let m = choose|m: int| 0 <= m < k && members@.take(k as int)[m] == j as usize;
                            assert(members@.take(k + 1)[m] == j as usize);
                        }
                    }
                }
                k = k + 1;
                assert(rest_groups@ =~= groups_view.skip(k as int));
            }
            assert(members@.take(members@.len() as int) =~= members@);
            proof {
                assert forall|j: int|
                    0 <= j < count && !bucket_lanes(given, horizon).contains(j as usize) implies #[trigger] slots@[j]
                        == slots_start[j] && positions[j] == positions_start[j] by {
                    assert(!members@.take(k as int).contains(j as usize));
                }
            }
        }
        proof {
            lemma_bucket_step(
                predict,
                support,
                native_chunk,
                given,
                buckets@,
                b as int,
                pairs@,
                slots_start,
                slots@,
                held_start,
                held@,
                fused_start,
                fused,
                outcomes_start,
                outcomes,
                positions_start,
                positions,
            );
        }
        b = b + 1;
    }
    proof {
        assert forall|m: int| 0 <= m < count implies (#[trigger] slots@[m]) is Some by {
            assert(slot_state(
                predict,
                support,
                native_chunk,
                given,
                m,
                slots@[m],
                held@[m],
                lane_done(given, m, buckets@, buckets@.len() as int),
                fused,
                positions[m],
            ));
        }
    }
    let mut results: Vec<Result<PredictFrames<T>, Error>> = Vec::new();
    let ghost slots_view = slots@;
    let ghost held_view = held@;
    let mut rest_slots = slots;
    let mut j: usize = 0;
    while rest_slots.len() > 0
        invariant
            count == given.len(),
            slots_view.len() == count,
            j + rest_slots@.len() == count,
            rest_slots@ == slots_view.skip(j as int),
            forall|m: int| 0 <= m < count ==> (#[trigger] slots_view[m]) is Some,
            results@.len() == j,
            forall|m: int| 0 <= m < j ==> #[trigger] results@[m] == slots_view[m]->Some_0,
        decreases rest_slots@.len(),
    {
        let slot = rest_slots.remove(0);
        assert(slot == slots_view[j as int]);
        let result = match slot {
            Some(result) => result,
            None => Err(
                Error::Internal(String::from_str("grouped predict left a prepared group unserved")),
            ),
        };
        results.push(result);
        j = j + 1;
        assert(rest_slots@ =~= slots_view.skip(j as int));
    }
    proof {
        lemma_grouped_answers(
            predict,
            support,
            native_chunk,
            given,
            buckets@,
            pairs@,
            slots_view,
            held_view,
            fused,
            outcomes,
            positions,
            results@,
        );
    }
    results
}

/// The execution horizon a route runs at: the pinned one, at least one.
pub fn route_horizon(execution_horizon: u32) -> (horizon: u32)
    ensures
        horizon == bucket_horizon(execution_horizon),
{
    if execution_horizon < 1 {
        1
    } else {
        execution_horizon
    }
}

/// The message of a frame-stacked input on a chunking route.
pub open spec fn stacked_chunking_text(key: Seq<char>, depth: u32, horizon: u32) -> Seq<char> {
    "frame-stacking (input '"@ + key + "' stack="@ + decimal(depth as nat)
        + ") cannot be combined with action chunking (execution_horizon="@ + decimal(horizon as nat)
        + "): the engine assembles observations once per chunk, so the frame window would hold only decision-point frames. Use stack=1 or execution_horizon=1."@
}

/// Frame stacking and action chunking do not mix: the engine assembles
/// observations once per chunk, so a stacked window would hold only
/// decision-point frames. `first_stack` is the route's first stacked input
/// and its depth, if any.
pub fn check_stacking(horizon: u32, first_stack: Option<(&str, u32)>) -> (checked: Result<(), Error>)
    ensures
        horizon <= 1 || first_stack is None ==> checked is Ok,
        horizon > 1 && first_stack is Some ==> checked is Err && is_model_error(
            checked->Err_0,
            stacked_chunking_text(first_stack->Some_0.0@, first_stack->Some_0.1, horizon),
        ),
{
    if horizon <= 1 {
        return Ok(());
    }
    match first_stack {
        None => Ok(()),
        Some((key, depth)) => {
            let mut message = String::from_str("frame-stacking (input '");
            message.append(key);
            message.append("' stack=");
            message.append(number_text(depth as u64).as_str());
            message.append(") cannot be combined with action chunking (execution_horizon=");
            message.append(number_text(horizon as u64).as_str());
            message.append(
                "): the engine assembles observations once per chunk, so the frame window would hold only decision-point frames. Use stack=1 or execution_horizon=1.",
            );
            Err(Error::model(message))
        },
    }
}

/// The horizon a spec'd route is stored with, once every resolve check
/// passes: the horizon checks (see [`check_horizon_doors`]), then the
/// stacking check at the route's horizon (see [`check_stacking`]);
/// `first_stack` is the route's first stacked input and its depth, if any.
pub fn stamp_route_horizon(
    execution_horizon: u32,
    native_chunk: Option<u32>,
    support: CornerSupport,
    first_stack: Option<(&str, u32)>,
) -> (stamped: Result<u32, Error>)
    ensures
        !doors_outcome(execution_horizon, native_chunk, support, Ok(())) ==> stamped is Err && doors_outcome(
            execution_horizon,
            native_chunk,
            support,
            Err(stamped->Err_0),
        ),
        doors_outcome(execution_horizon, native_chunk, support, Ok(())) ==> {
            let horizon = bucket_horizon(execution_horizon);
            &&& horizon <= 1 || first_stack is None ==> stamped == Ok::<u32, Error>(horizon)
            &&& horizon > 1 && first_stack is Some ==> stamped is Err && is_model_error(
                stamped->Err_0,
                stacked_chunking_text(first_stack->Some_0.0@, first_stack->Some_0.1, horizon),
            )
        },
{
    match check_horizon_doors(execution_horizon, native_chunk, support) {
        Ok(()) => {},
        Err(error) => return Err(error),
    }
    let horizon = route_horizon(execution_horizon);
    match check_stacking(horizon, first_stack) {
        Ok(()) => Ok(horizon),
        Err(error) => Err(error),
    }
}

/// The execution horizons pinned for spec-less routes, by env id; a route
/// with none runs at horizon one.
pub struct SpecLessHorizons {
    horizons: StringHashMap<u32>,
}

impl SpecLessHorizons {
    /// The pinned horizons, by env id.
    pub closed spec fn pinned(&self) -> Map<Seq<char>, u32> {
        self.horizons@
    }

    /// No horizon pinned.
    pub fn new() -> (horizons: Self)
        ensures
            horizons.pinned() == Map::<Seq<char>, u32>::empty(),
    {
        SpecLessHorizons { horizons: StringHashMap::new() }
    }

    /// Pin the horizon a spec-less route resolved with: a horizon above one is
    /// kept, one (no chunking) clears any earlier pin.
    pub fn pin(&mut self, env_id: &str, execution_horizon: u32)
        ensures
            bucket_horizon(execution_horizon) > 1 ==> final(self).pinned() == old(self).pinned().insert(
                env_id@,
                bucket_horizon(execution_horizon),
            ),
            bucket_horizon(execution_horizon) <= 1 ==> final(self).pinned() == old(self).pinned().remove(env_id@),
    {
        let horizon = route_horizon(execution_horizon);
        if horizon > 1 {
            self.horizons.insert(env_id.to_owned(), horizon);
        } else {
            self.horizons.remove(env_id);
        }
    }

    /// The horizon a spec-less route runs at: its pin, else one.
    pub fn horizon(&self, env_id: &str) -> (horizon: u32)
        ensures
            horizon == if self.pinned().contains_key(env_id@) {
                self.pinned()[env_id@]
            } else {
                1
            },
    {
        match self.horizons.get(env_id) {
            Some(horizon) => *horizon,
            None => 1,
        }
    }

    /// Resolve a spec-less route: the horizon checks first (see
    /// [`check_horizon_doors`]), and only once they pass is the route's horizon
    /// pinned (see [`SpecLessHorizons::pin`]); a refused resolve leaves every
    /// pin as it was.
    pub fn resolve(
        &mut self,
        env_id: &str,
        execution_horizon: u32,
        native_chunk: Option<u32>,
        support: CornerSupport,
    ) -> (resolved: Result<(), Error>)
        ensures
            doors_outcome(execution_horizon, native_chunk, support, resolved),
            resolved is Err ==> final(self).pinned() == old(self).pinned(),
            resolved is Ok && bucket_horizon(execution_horizon) > 1 ==> final(self).pinned()
                == old(self).pinned().insert(env_id@, bucket_horizon(execution_horizon)),
            resolved is Ok && bucket_horizon(execution_horizon) <= 1 ==> final(self).pinned()
                == old(self).pinned().remove(env_id@),
    {
        match check_horizon_doors(execution_horizon, native_chunk, support) {
            Ok(()) => {},
            Err(error) => return Err(error),
        }
        self.pin(env_id, execution_horizon);
        Ok(())
    }

    /// Forget a released route's pin.
    pub fn release(&mut self, env_id: &str)
        ensures
            final(self).pinned() == old(self).pinned().remove(env_id@),
    {
        self.horizons.remove(env_id);
    }
}

} // verus!
