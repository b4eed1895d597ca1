//! The direct env client's episode-id authority.
//!
//! The client mints every episode id and pushes it down to the env, which
//! adopts it and never mints one itself: a full reset gives every lane a fresh
//! id, a partial reset the lanes it names, and under next-step autoreset a
//! lane that completed an episode rolls to a fresh id for the step that resets
//! it.

use vstd::prelude::*;

use crate::error::{EnvironmentError, Error, ErrorCode};
use crate::spaces::AutoresetMode;
use crate::text::decimal_int;

verus! {

/// Whether `id` has the hyphenated UUID text shape: 36 characters with
/// hyphens at offsets 8, 13, 18 and 23.
pub open spec fn is_hyphenated_uuid(id: Seq<char>) -> bool {
    &&& id.len() == 36
    &&& id[8] == '-'
    &&& id[13] == '-'
    &&& id[18] == '-'
    &&& id[23] == '-'
}

/// Mint a fresh episode id: a time-ordered UUIDv7, as hyphenated text.
///
/// Calls `uuid::Uuid::now_v7` and renders it with `Display`, which writes the
/// lowercase hyphenated form. What is left unsaid is which id comes back: it
/// rests on the clock and on random bits.
#[verifier::external_body]
fn new_episode_id() -> (id: String)
    ensures
        is_hyphenated_uuid(id@),
{
    uuid::Uuid::now_v7().to_string()
}

/// The per-lane episode ids of one vectorized env session.
pub struct EpisodeIds {
    /// The current episode id of each lane (empty before the first reset).
    pub ids: Vec<String>,
}

/// The message of a partial reset naming a negative lane.
pub open spec fn negative_lane_text(index: i32) -> Seq<char> {
    "partial reset: env_index "@ + decimal_int(index as int) + " must be a non-negative lane offset"@
}

/// The ids after `minted[k]` became the id of lane `lanes[k]`, in order, for
/// every named lane that exists.
pub open spec fn assigned(ids: Seq<Seq<char>>, lanes: Seq<u32>, minted: Seq<Seq<char>>) -> Seq<Seq<char>>
    decreases lanes.len(),
{
    if lanes.len() == 0 {
        ids
    } else {
        let before = assigned(ids, lanes.drop_last(), minted);
        let lane = lanes.last() as int;
        if lane < before.len() {
            before.update(lane, minted[lanes.len() - 1])
        } else {
            before
        }
    }
}

/// The views of `ids`.
pub open spec fn id_views(ids: Seq<String>) -> Seq<Seq<char>> {
    ids.map_values(|id: String| id@)
}

/// The lane offsets of a partial reset: every index must be a non-negative
/// lane offset; the first negative one is refused as an invalid action.
pub fn reset_lane_indices(env_indices: &Vec<i32>) -> (lanes: Result<Vec<u32>, Error>)
    ensures
        (forall|i: int| 0 <= i < env_indices@.len() ==> #[trigger] env_indices@[i] >= 0) ==> (lanes matches Ok(
            out,
        ) && out@.len() == env_indices@.len() && forall|i: int|
            0 <= i < env_indices@.len() ==> #[trigger] out@[i] == env_indices@[i]),
        (exists|i: int| 0 <= i < env_indices@.len() && #[trigger] env_indices@[i] < 0) ==> (lanes matches Err(
            Error::Environment(error),
        ) && error.code == ErrorCode::InvalidAction && !error.is_recoverable && exists|i: int|
            0 <= i < env_indices@.len() && #[trigger] env_indices@[i] < 0 && (forall|j: int|
                0 <= j < i ==> env_indices@[j] >= 0) && error.message@ == negative_lane_text(env_indices@[i])),
{
    let mut out: Vec<u32> = Vec::new();
    let mut i: usize = 0;
    while i < env_indices.len()
        invariant
            i <= env_indices@.len(),
            out@.len() == i,
            forall|j: int| 0 <= j < i ==> #[trigger] env_indices@[j] >= 0 && out@[j] == env_indices@[j],
        decreases env_indices@.len() - i,
    {
        let index = env_indices[i];
        if index < 0 {
            let mut message = String::from_str("partial reset: env_index ");
            message.append(crate::text::int_text(index as i64).as_str());
            message.append(" must be a non-negative lane offset");
            let error = EnvironmentError {
                code: ErrorCode::InvalidAction,
                message,
                is_recoverable: false,
            };
            proof {
                assert(env_indices@[i as int] < 0);
                assert(forall|j: int| 0 <= j < i ==> env_indices@[j] >= 0);
            }
            return Err(Error::Environment(error));
        }
        out.push(index as u32);
        i = i + 1;
    }
    Ok(out)
}

impl EpisodeIds {
    /// A session of `num_envs` lanes, none reset yet.
    pub fn new(num_envs: usize) -> (authority: Self)
        ensures
            authority.ids@.len() == num_envs,
            forall|i: int| 0 <= i < num_envs ==> (#[trigger] authority.ids@[i])@ == Seq::<char>::empty(),
    {
        let mut ids: Vec<String> = Vec::new();
        let mut i: usize = 0;
        while i < num_envs
            invariant
                i <= num_envs,
                ids@.len() == i,
                forall|j: int| 0 <= j < i ==> (#[trigger] ids@[j])@ == Seq::<char>::empty(),
            decreases num_envs - i,
        {
            ids.push(String::new());
            i = i + 1;
        }
        EpisodeIds { ids }
    }

    /// Adopt the ids a full reset pushes: every lane takes its minted id.
    pub fn apply_full_reset(&mut self, minted: &Vec<String>)
        requires
            minted@.len() == old(self).ids@.len(),
        ensures
            id_views(final(self).ids@) == id_views(minted@),
    {
        let mut ids: Vec<String> = Vec::new();
        let mut i: usize = 0;
        while i < minted.len()
            invariant
                i <= minted@.len(),
                ids@.len() == i,
                forall|j: int| 0 <= j < i ==> (#[trigger] ids@[j])@ == minted@[j]@,
            decreases minted@.len() - i,
        {
            ids.push(minted[i].clone());
            i = i + 1;
        }
        self.ids = ids;
        assert(id_views(self.ids@) =~= id_views(minted@));
    }

    /// Adopt the ids a partial reset pushes: lane `lanes[k]` takes
    /// `minted[k]`, a lane past the session's width is skipped, and every lane
    /// the reset does not name keeps its id.
    pub fn apply_partial_reset(&mut self, lanes: &Vec<u32>, minted: &Vec<String>)
        requires
            minted@.len() == lanes@.len(),
        ensures
            id_views(final(self).ids@) == assigned(id_views(old(self).ids@), lanes@, id_views(minted@)),
    {
        let mut k: usize = 0;
        while k < lanes.len()
            invariant
                minted@.len() == lanes@.len(),
                k <= lanes@.len(),
                id_views(self.ids@) == assigned(id_views(old(self).ids@), lanes@.take(k as int), id_views(minted@)),
            decreases lanes@.len() - k,
        {
            proof {
                assert(lanes@.take(k + 1).drop_last() =~= lanes@.take(k as int));
                lemma_assigned_len(id_views(old(self).ids@), lanes@.take(k as int), id_views(minted@));
            }
            let lane = lanes[k] as usize;
            if lane < self.ids.len() {
                let ghost before = self.ids@;
                let id = minted[k].clone();
                self.ids.remove(lane);
                self.ids.insert(lane, id);
                assert(id_views(self.ids@) =~= id_views(before).update(lane as int, minted@[k as int]@));
            }
            k = k + 1;
        }
        assert(lanes@.take(lanes@.len() as int) =~= lanes@);
    }

    /// Roll the lanes whose episodes completed on a step: under next-step
    /// autoreset the env resets such a lane on the next step and adopts the
    /// id pushed then, so lane `completed[k]` takes `minted[k]` now; under any
    /// other mode a done lane stays done until an explicit reset, and keeps
    /// its id. A completed index that is no lane is skipped.
    pub fn roll_completed(&mut self, mode: AutoresetMode, completed: &Vec<i32>, minted: &Vec<String>)
        requires
            minted@.len() == completed@.len(),
        ensures
            mode != AutoresetMode::NextStep ==> final(self).ids@ == old(self).ids@,
            mode == AutoresetMode::NextStep ==> id_views(final(self).ids@) == assigned(
                id_views(old(self).ids@),
                lane_offsets(completed@),
                id_views(minted@),
            ),
    {
        match mode {
            AutoresetMode::NextStep => {},
            _ => return ,
        }
        let lanes = completed_lanes(completed);
        self.apply_partial_reset(&lanes, minted);
    }

    /// Mint and adopt the ids a reset pushes: a full reset (no lanes named)
    /// mints one id per lane; a partial reset one per named lane, aligned with
    /// the named lanes. Returns the pushed ids.
    pub fn reset_ids(&mut self, lanes: &Vec<u32>) -> (pushed: Vec<String>)
        ensures
            forall|i: int| 0 <= i < pushed@.len() ==> is_hyphenated_uuid(#[trigger] pushed@[i]@),
            lanes@.len() == 0 ==> pushed@.len() == old(self).ids@.len() && id_views(final(self).ids@)
                == id_views(pushed@),
            lanes@.len() > 0 ==> pushed@.len() == lanes@.len() && id_views(final(self).ids@) == assigned(
                id_views(old(self).ids@),
                lanes@,
                id_views(pushed@),
            ),
    {
        let count = if lanes.len() == 0 {
            self.ids.len()
        } else {
            lanes.len()
        };
        let minted = mint_ids(count);
        if lanes.len() == 0 {
            self.apply_full_reset(&minted);
        } else {
            self.apply_partial_reset(lanes, &minted);
        }
        minted
    }

    /// Roll the lanes of `completed` episodes (see [`EpisodeIds::roll_completed`]),
    /// minting their fresh ids.
    pub fn roll_after_step(&mut self, mode: AutoresetMode, completed: &Vec<i32>)
        ensures
            mode != AutoresetMode::NextStep ==> final(self).ids@ == old(self).ids@,
            mode == AutoresetMode::NextStep ==> exists|minted: Seq<String>|
                minted.len() == completed@.len() && (forall|i: int|
                    0 <= i < minted.len() ==> is_hyphenated_uuid(#[trigger] minted[i]@)) && id_views(
                    final(self).ids@,
                ) == assigned(id_views(old(self).ids@), lane_offsets(completed@), id_views(minted)),
    {
        match mode {
            AutoresetMode::NextStep => {},
            _ => return ,
        }
        let minted = mint_ids(completed.len());
        self.roll_completed(mode, completed, &minted);
    }
}

/// The lane offset of a completed episode's env index: a negative index
/// names no lane and maps past every lane.
pub open spec fn lane_offset(index: i32) -> u32 {
    if index >= 0 {
        index as u32
    } else {
        u32::MAX
    }
}

/// The lane offsets of `indices`.
pub open spec fn lane_offsets(indices: Seq<i32>) -> Seq<u32> {
    indices.map_values(|index: i32| lane_offset(index))
}

fn completed_lanes(completed: &Vec<i32>) -> (lanes: Vec<u32>)
    ensures
        lanes@ == lane_offsets(completed@),
{
    let mut lanes: Vec<u32> = Vec::new();
    let mut i: usize = 0;
    while i < completed.len()
        invariant
            i <= completed@.len(),
            lanes@ == lane_offsets(completed@.take(i as int)),
        decreases completed@.len() - i,
    {
        let index = completed[i];
        let lane: u32 = if index >= 0 {
            index as u32
        } else {
            4294967295u32
        };
        lanes.push(lane);
        i = i + 1;
        assert(lanes@ =~= lane_offsets(completed@.take(i as int)));
    }
    assert(completed@.take(completed@.len() as int) =~= completed@);
    lanes
}

/// Mint `count` fresh episode ids.
fn mint_ids(count: usize) -> (minted: Vec<String>)
    ensures
        minted@.len() == count,
        forall|i: int| 0 <= i < count ==> is_hyphenated_uuid(#[trigger] minted@[i]@),
{
    let mut minted: Vec<String> = Vec::new();
    let mut i: usize = 0;
    while i < count
        invariant
            i <= count,
            minted@.len() == i,
            forall|j: int| 0 <= j < i ==> is_hyphenated_uuid(#[trigger] minted@[j]@),
        decreases count - i,
    {
        minted.push(new_episode_id());
        i = i + 1;
    }
    minted
}

proof fn lemma_assigned_len(ids: Seq<Seq<char>>, lanes: Seq<u32>, minted: Seq<Seq<char>>)
    ensures
        assigned(ids, lanes, minted).len() == ids.len(),
    decreases lanes.len(),
{
    if lanes.len() > 0 {
        lemma_assigned_len(ids, lanes.drop_last(), minted);
    }
}

/// A lane a partial reset does not name keeps its episode id.
pub proof fn lemma_unnamed_lane_keeps_its_id(ids: Seq<Seq<char>>, lanes: Seq<u32>, minted: Seq<Seq<char>>, lane: int)
    requires
        0 <= lane < ids.len(),
        forall|k: int| 0 <= k < lanes.len() ==> #[trigger] lanes[k] as int != lane,
    ensures
        assigned(ids, lanes, minted)[lane] == ids[lane],
    decreases lanes.len(),
{
    if lanes.len() > 0 {
        assert forall|k: int| 0 <= k < lanes.drop_last().len() implies #[trigger] lanes.drop_last()[k] as int != lane by {
            assert(lanes.drop_last()[k] == lanes[k]);
        }
        lemma_unnamed_lane_keeps_its_id(ids, lanes.drop_last(), minted, lane);
        lemma_assigned_len(ids, lanes.drop_last(), minted);
        assert(lanes.last() == lanes[lanes.len() - 1]);
    }
}

/// A lane a partial reset names last takes the id minted for it.
pub proof fn lemma_named_lane_takes_its_id(ids: Seq<Seq<char>>, lanes: Seq<u32>, minted: Seq<Seq<char>>, k: int)
    requires
        0 <= k < lanes.len(),
        (lanes[k] as int) < ids.len(),
        forall|j: int| k < j < lanes.len() ==> #[trigger] lanes[j] != lanes[k],
    ensures
        assigned(ids, lanes, minted)[lanes[k] as int] == minted[k],
    decreases lanes.len(),
{
    lemma_assigned_len(ids, lanes.drop_last(), minted);
    if k < lanes.len() - 1 {
        assert(lanes.drop_last()[k] == lanes[k]);
        assert forall|j: int| k < j < lanes.drop_last().len() implies #[trigger] lanes.drop_last()[j] != lanes.drop_last()[k] by {
            assert(lanes.drop_last()[j] == lanes[j]);
        }
        lemma_named_lane_takes_its_id(ids, lanes.drop_last(), minted, k);
        assert(lanes.last() == lanes[lanes.len() - 1]);
    }
}

} // verus!
