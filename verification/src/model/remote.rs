//! The direct model client's single-lane session: its contract check, the
//! episode boundary it alone can signal, and the open-loop replay of chunked
//! predicts.
//!
//! The client is the episode-id authority on this path: each `reset` mints a
//! fresh episode id, and the id it replaces is queued so the next request
//! tells the served model that episode ended. A chunking model answers one
//! predict with several frames; the client replays them one per step before it
//! asks the model again, and a reset drops any frames not yet replayed.

use std::collections::VecDeque;

use vstd::prelude::*;

use crate::env::episodes::is_hyphenated_uuid;
use crate::error::Error;
use crate::spaces::EnvContract;
use crate::text::{decimal, number_text};

verus! {

/// The message of a vector contract handed to the single-lane client.
pub open spec fn vector_contract_text(num_envs: u32) -> Seq<char> {
    "RemoteModel drives a single env, but the env contract reports num_envs="@ + decimal(num_envs as nat)
        + "; use num_envs=1 (this client sends one observation per predict on lane 0)"@
}

/// Coerce an env contract to the single lane this client drives: a
/// zero-width contract clamps up to one lane, a vector contract is refused
/// (the client would silently evaluate only lane 0), and everything else is
/// kept.
pub fn single_lane_contract(env_contract: EnvContract) -> (single: Result<EnvContract, Error>)
    ensures
        env_contract.num_envs <= 1 ==> (single matches Ok(contract) && contract.num_envs == 1
            && contract.id == env_contract.id && contract.autoreset_mode == env_contract.autoreset_mode
            && contract.observation_space == env_contract.observation_space && contract.action_space
            == env_contract.action_space && contract.metadata == env_contract.metadata
            && contract.render_mode == env_contract.render_mode),
        env_contract.num_envs > 1 ==> (single matches Err(Error::Internal(message)) && message@
            == vector_contract_text(env_contract.num_envs)),
{
    let mut env_contract = env_contract;
    if env_contract.num_envs == 0 {
        env_contract.num_envs = 1;
    }
    if env_contract.num_envs > 1 {
        let mut message = String::from_str("RemoteModel drives a single env, but the env contract reports num_envs=");
        message.append(number_text(env_contract.num_envs as u64).as_str());
        message.append("; use num_envs=1 (this client sends one observation per predict on lane 0)");
        return Err(Error::Internal(message));
    }
    Ok(env_contract)
}

/// Whether `id` names a direct model client session: `remote-model-` and a
/// hyphenated UUID.
pub open spec fn is_session_id(id: Seq<char>) -> bool {
    &&& id.len() == 49
    &&& id.take(13) == "remote-model-"@
    &&& is_hyphenated_uuid(id.skip(13))
}

/// Render a random (version 4) UUID as hyphenated text.
///
/// Calls `uuid::Uuid::new_v4` and renders it with `Display`, which writes the
/// 36-character hyphenated form (hyphens after the 8th, 12th, 16th and 20th
/// hex digit). Which id comes back rests on random bits and is left unsaid.
#[verifier::external_body]
fn random_uuid_text() -> (text: String)
    ensures
        is_hyphenated_uuid(text@),
{
    uuid::Uuid::new_v4().to_string()
}

/// A fresh session id, kept for correlation only: `remote-model-` followed by
/// a random UUID.
pub fn new_session_id() -> (id: String)
    ensures
        is_session_id(id@),
{
    let mut id = String::from_str("remote-model-");
    let uuid = random_uuid_text();
    id.append(uuid.as_str());
    proof {
        reveal_strlit("remote-model-");
        assert(id@.take(13) =~= "remote-model-"@);
        assert(id@.skip(13) =~= uuid@);
    }
    id
}

/// What the client does for one `predict` call.
#[derive(Debug, Clone, Copy, PartialEq, Eq)]
pub struct PredictPlan {
    /// The env step this call is, counted from the session's start.
    pub step: i64,
    /// Whether the model is asked (no frames are left to replay).
    pub call_model: bool,
    /// Whether this replayed step's observation is kept as a history row for
    /// the next real predict.
    pub record_history: bool,
}

/// The replay and episode state of one direct model client session over
/// actions `A` and history rows `H`.
pub struct RemoteSession<A, H> {
    /// The current episode id; none before the first reset.
    pub episode_id: Option<String>,
    /// The seed the current episode was reset with, if any.
    pub seed: Option<i64>,
    /// Ids of episodes left behind whose end the model has not been told.
    pub pending_end: Vec<String>,
    /// Chunk frames not yet replayed, oldest first.
    pub replay: VecDeque<A>,
    /// Whether the served route asked for observation history.
    pub history_on: bool,
    /// Replayed steps' observations awaiting the next real predict.
    pub history: Vec<H>,
    /// The session's env-step counter.
    pub step: i64,
    /// The counter that makes each request id distinct.
    pub request_counter: u64,
}

/// The message of a predict before any reset.
pub open spec fn predict_before_reset_text() -> Seq<char> {
    "call reset() before predict()"@
}

/// The message of a predict answered with no frame.
pub open spec fn no_actions_text() -> Seq<char> {
    "predict returned no actions for a single-env route"@
}

impl<A, H> RemoteSession<A, H> {
    /// A session before its first reset.
    pub fn new() -> (session: Self)
        ensures
            session.episode_id is None,
            session.seed is None,
            session.pending_end@.len() == 0,
            session.replay@.len() == 0,
            !session.history_on,
            session.history@.len() == 0,
            session.step == 0,
            session.request_counter == 0,
    {
        RemoteSession {
            episode_id: None,
            seed: None,
            pending_end: Vec::new(),
            replay: VecDeque::new(),
            history_on: false,
            history: Vec::new(),
            step: 0,
            request_counter: 0,
        }
    }

    /// Begin a new episode with the freshly minted `episode_id`: the episode
    /// it replaces (if any) is queued as ended, the seed is kept for the
    /// episode's predicts, and frames and history rows left from the ended
    /// episode are dropped.
    pub fn begin_episode(&mut self, episode_id: String, seed: Option<i64>)
        ensures
            final(self).episode_id == Some(episode_id),
            final(self).seed == seed,
            final(self).pending_end@ == match old(self).episode_id {
                Some(previous) => old(self).pending_end@.push(previous),
                None => old(self).pending_end@,
            },
            final(self).replay@.len() == 0,
            final(self).history@.len() == 0,
            final(self).history_on == old(self).history_on,
            final(self).step == old(self).step,
            final(self).request_counter == old(self).request_counter,
    {
        let previous = self.episode_id.take();
        self.episode_id = Some(episode_id);
        match previous {
            Some(previous) => self.pending_end.push(previous),
            None => {},
        }
        self.seed = seed;
        self.replay.clear();
        self.history = Vec::new();
    }

    /// Plan one `predict` call: refused before any reset; otherwise the step
    /// counter advances, the model is asked only when no frame is left to
    /// replay, and a replayed step records a history row when the route wants
    /// history.
    pub fn plan_predict(&mut self) -> (plan: Result<PredictPlan, Error>)
        requires
            old(self).step < i64::MAX,
        ensures
            old(self).episode_id is None ==> (plan matches Err(Error::Internal(message)) && message@
                == predict_before_reset_text()) && *final(self) == *old(self),
            old(self).episode_id is Some ==> plan == Ok::<PredictPlan, Error>(plan_of(*old(self)))
                && final(self).step == old(self).step + 1 && final(self).episode_id == old(self).episode_id
                && final(self).seed == old(self).seed && final(self).pending_end == old(self).pending_end
                && final(self).replay == old(self).replay && final(self).history_on == old(self).history_on
                && final(self).history == old(self).history && final(self).request_counter
                == old(self).request_counter,
    {
        if self.episode_id.is_none() {
            let message = String::from_str("call reset() before predict()");
            proof {
                reveal_strlit("call reset() before predict()");
            }
            return Err(Error::Internal(message));
        }
        let step = self.step;
        self.step = self.step + 1;
        let call_model = self.replay.len() == 0;
        let record_history = self.replay.len() > 0 && self.history_on;
        Ok(PredictPlan { step, call_model, record_history })
    }

    /// Keep a replayed step's history row for the next real predict.
    pub fn record_history(&mut self, row: H)
        ensures
            final(self).history@ == old(self).history@.push(row),
            final(self).replay == old(self).replay,
            final(self).episode_id == old(self).episode_id,
            final(self).pending_end == old(self).pending_end,
            final(self).step == old(self).step,
    {
        self.history.push(row);
    }

    /// Hand the kept history rows to the next real predict.
    pub fn take_history(&mut self) -> (rows: Vec<H>)
        ensures
            rows@ == old(self).history@,
            final(self).history@.len() == 0,
            final(self).replay == old(self).replay,
            final(self).episode_id == old(self).episode_id,
            final(self).step == old(self).step,
    {
        let mut rows: Vec<H> = Vec::new();
        std::mem::swap(&mut rows, &mut self.history);
        rows
    }

    /// The id of the next predict request: `<env_id>:predict:<n>`, with a
    /// fresh `n` for each request.
    pub fn next_request_id(&mut self, env_id: &str) -> (id: String)
        requires
            old(self).request_counter < u64::MAX,
        ensures
            final(self).request_counter == old(self).request_counter + 1,
            id@ == env_id@ + ":predict:"@ + decimal(final(self).request_counter as nat),
            final(self).replay == old(self).replay,
            final(self).episode_id == old(self).episode_id,
            final(self).pending_end == old(self).pending_end,
    {
        self.request_counter = self.request_counter + 1;
        let mut id = String::from_str(env_id);
        id.append(":predict:");
        id.append(number_text(self.request_counter).as_str());
        id
    }

    /// Take the queued episode ends to flush with a reset-adapter request:
    /// none when nothing is queued; otherwise the request's id
    /// (`<env_id>:reset_adapter:<n>`, fresh per flush) and the ended ids, in
    /// the order they ended.
    pub fn take_pending_end(&mut self, env_id: &str) -> (flush: Option<(String, Vec<String>)>)
        requires
            old(self).request_counter < u64::MAX,
        ensures
            old(self).pending_end@.len() == 0 ==> flush is None && *final(self) == *old(self),
            old(self).pending_end@.len() > 0 ==> (flush matches Some((id, ended)) && ended@
                == old(self).pending_end@ && final(self).pending_end@.len() == 0
                && final(self).request_counter == old(self).request_counter + 1 && id@ == env_id@
                + ":reset_adapter:"@ + decimal(final(self).request_counter as nat)),
            final(self).replay == old(self).replay,
            final(self).episode_id == old(self).episode_id,
            final(self).step == old(self).step,
    {
        if self.pending_end.len() == 0 {
            return None;
        }
        self.request_counter = self.request_counter + 1;
        let mut id = String::from_str(env_id);
        id.append(":reset_adapter:");
        id.append(number_text(self.request_counter).as_str());
        let mut ended: Vec<String> = Vec::new();
        std::mem::swap(&mut ended, &mut self.pending_end);
        Some((id, ended))
    }

    /// Buffer a real predict's frames for replay, in order (frame 0 is this
    /// step's action); a predict with no frame fails.
    pub fn accept_frames(&mut self, frames: Vec<A>) -> (accepted: Result<(), Error>)
        ensures
            frames@.len() == 0 ==> (accepted matches Err(Error::Internal(message)) && message@
                == no_actions_text()) && final(self).replay == old(self).replay,
            frames@.len() > 0 ==> accepted is Ok && final(self).replay@ == old(self).replay@ + frames@,
            final(self).episode_id == old(self).episode_id,
            final(self).pending_end == old(self).pending_end,
            final(self).step == old(self).step,
            final(self).history == old(self).history,
    {
        if frames.len() == 0 {
            let message = String::from_str("predict returned no actions for a single-env route");
            proof {
                reveal_strlit("predict returned no actions for a single-env route");
            }
            return Err(Error::Internal(message));
        }
        let ghost given = frames@;
        let ghost start = self.replay@;
        let total = frames.len();
        let mut rest = frames;
        let mut k: usize = 0;
        while rest.len() > 0
            invariant
                total == given.len(),
                k + rest@.len() == total,
                rest@ == given.skip(k as int),
                self.replay@ == start + given.take(k as int),
                self.episode_id == old(self).episode_id,
                self.pending_end == old(self).pending_end,
                self.step == old(self).step,
                self.history == old(self).history,
            decreases rest@.len(),
        {
            let frame = rest.remove(0);
            assert(frame == given[k as int]);
            self.replay.push_back(frame);
            assert(given.take(k + 1) =~= given.take(k as int).push(given[k as int]));
            k = k + 1;
            assert(rest@ =~= given.skip(k as int));
        }
        assert(given.take(total as int) =~= given);
        Ok(())
    }

    /// Buffer a real predict's decoded frames for replay, in order: each wire
    /// frame must decode to exactly one action for this single lane. A predict
    /// with no frame fails with nothing buffered; the first frame of another
    /// width fails the predict, the frames before it already buffered.
    pub fn accept_decoded_frames(&mut self, frames: Vec<Vec<A>>) -> (accepted: Result<(), Error>)
        ensures
            frames@.len() == 0 ==> (accepted matches Err(Error::Internal(message)) && message@
                == no_actions_text()) && final(self).replay == old(self).replay,
            frames@.len() > 0 && single_actions(frames@, frames@.len() as int) ==> accepted is Ok
                && final(self).replay@ == old(self).replay@ + frame_actions(frames@, frames@.len() as int),
            frames@.len() > 0 && !single_actions(frames@, frames@.len() as int) ==> exists|k: int|
                0 <= k < frames@.len() && single_actions(frames@, k) && (#[trigger] frames@[k])@.len() != 1
                    && (accepted matches Err(Error::Internal(message)) && message@ == frame_width_text(
                    frames@[k]@.len(),
                )) && final(self).replay@ == old(self).replay@ + frame_actions(frames@, k),
            final(self).episode_id == old(self).episode_id,
            final(self).pending_end == old(self).pending_end,
            final(self).step == old(self).step,
            final(self).history == old(self).history,
    {
        if frames.len() == 0 {
            let message = String::from_str("predict returned no actions for a single-env route");
            proof {
                reveal_strlit("predict returned no actions for a single-env route");
            }
            return Err(Error::Internal(message));
        }
        let ghost given = frames@;
        let ghost start = self.replay@;
        let total = frames.len();
        let mut rest = frames;
        let mut k: usize = 0;
        while rest.len() > 0
            invariant
                given == frames@,
                given.len() > 0,
                total == given.len(),
                start == old(self).replay@,
                k + rest@.len() == given.len(),
                rest@ == given.skip(k as int),
                single_actions(given, k as int),
                self.replay@ == start + frame_actions(given, k as int),
                self.episode_id == old(self).episode_id,
                self.pending_end == old(self).pending_end,
                self.step == old(self).step,
                self.history == old(self).history,
            decreases rest@.len(),
        {
            let mut frame = rest.remove(0);
            assert(frame == given[k as int]);
            if frame.len() != 1 {
                let mut message = String::from_str("predict frame decoded to ");
                message.append(number_text(frame.len() as u64).as_str());
                message.append(" actions for a single-env route");
                proof {
                    assert(!single_actions(given, given.len() as int));
                    assert(given[k as int]@.len() != 1);
                    assert(message@ == frame_width_text(given[k as int]@.len()));
                }
                return Err(Error::Internal(message));
            }
            let action = frame.remove(0);
            self.replay.push_back(action);
            proof {
                assert(frame_actions(given, k + 1) =~= frame_actions(given, k as int).push(given[k as int]@[0]));
            }
            k = k + 1;
            assert(rest@ =~= given.skip(k as int));
        }
        Ok(())
    }

    /// The next frame to apply: the oldest one not yet replayed.
    pub fn next_action(&mut self) -> (action: A)
        requires
            old(self).replay@.len() > 0,
        ensures
            action == old(self).replay@[0],
            final(self).replay@ == old(self).replay@.drop_first(),
            final(self).episode_id == old(self).episode_id,
            final(self).pending_end == old(self).pending_end,
            final(self).step == old(self).step,
    {
        self.replay.pop_front().unwrap()
    }

    /// End the session's last episode: its id is queued so the close flushes
    /// its end too.
    pub fn end_last_episode(&mut self)
        ensures
            final(self).episode_id is None,
            final(self).pending_end@ == match old(self).episode_id {
                Some(previous) => old(self).pending_end@.push(previous),
                None => old(self).pending_end@,
            },
            final(self).replay == old(self).replay,
            final(self).step == old(self).step,
    {
        let previous = self.episode_id.take();
        match previous {
            Some(previous) => self.pending_end.push(previous),
            None => {},
        }
    }
}

/// The message of a wire frame that decoded to `actions` actions.
pub open spec fn frame_width_text(actions: nat) -> Seq<char> {
    "predict frame decoded to "@ + decimal(actions) + " actions for a single-env route"@
}

/// Whether each of the first `upto` decoded frames holds exactly one action.
pub open spec fn single_actions<A>(frames: Seq<Vec<A>>, upto: int) -> bool {
    forall|k: int| 0 <= k < upto ==> (#[trigger] frames[k])@.len() == 1
}

/// The one action of each of the first `upto` decoded frames.
pub open spec fn frame_actions<A>(frames: Seq<Vec<A>>, upto: int) -> Seq<A> {
    Seq::new(upto as nat, |k: int| frames[k]@[0])
}

/// The buffer left after `steps` replayed steps, each taking the oldest frame
/// (see [`RemoteSession::next_action`]).
pub open spec fn replayed<A>(buffer: Seq<A>, steps: nat) -> Seq<A>
    decreases steps,
{
    if steps == 0 {
        buffer
    } else {
        replayed(buffer, (steps - 1) as nat).drop_first()
    }
}

/// The open-loop replay of one chunk: when a real predict buffers `frames` on
/// a session with nothing left to replay (as after a reset), then after
/// `steps` further replayed steps the buffer holds exactly the frames from
/// `steps` on; the action of that step is `frames[steps]`, answered without
/// asking the model; and the model is asked again exactly once every frame has
/// been replayed.
pub proof fn lemma_chunk_replay<A, H>(session: RemoteSession<A, H>, frames: Seq<A>, steps: nat)
    requires
        session.replay@.len() == 0,
        steps <= frames.len(),
    ensures
        replayed(session.replay@ + frames, steps) == frames.skip(steps as int),
        steps < frames.len() ==> replayed(session.replay@ + frames, steps)[0] == frames[steps as int],
        (replayed(session.replay@ + frames, steps).len() == 0) == (steps == frames.len()),
    decreases steps,
{
    assert(session.replay@ + frames =~= frames);
    if steps == 0 {
        assert(frames.skip(0) =~= frames);
    } else {
        lemma_chunk_replay(session, frames, (steps - 1) as nat);
        assert(frames.skip(steps - 1).drop_first() =~= frames.skip(steps as int));
    }
}

/// The plan of a predict made in `session` (see [`RemoteSession::plan_predict`]).
pub open spec fn plan_of<A, H>(session: RemoteSession<A, H>) -> PredictPlan {
    PredictPlan {
        step: session.step,
        call_model: session.replay@.len() == 0,
        record_history: session.replay@.len() > 0 && session.history_on,
    }
}

/// Each predict either asks the model (nothing is left to replay) or replays
/// a buffered frame, and only a replayed step may keep its observation as a
/// history row, which it does exactly when the route asked for history: a
/// route that did not ask never receives history rows, and a step that asks
/// the model never records one.
pub proof fn history_rows_only_when_asked<A, H>(session: RemoteSession<A, H>)
    ensures
        plan_of(session).call_model <==> session.replay@.len() == 0,
        plan_of(session).record_history ==> session.history_on,
        plan_of(session).record_history ==> !plan_of(session).call_model,
        !plan_of(session).call_model && session.history_on ==> plan_of(session).record_history,
        !session.history_on ==> !plan_of(session).record_history,
        plan_of(session).step == session.step,
{
}

/// A reset never lets a stale chunk tail bleed into the next episode: once an
/// episode begins no frame is left to replay, so its first predict asks the
/// model and records no history row.
pub proof fn lemma_fresh_episode_asks_the_model<A, H>(session: RemoteSession<A, H>)
    requires
        session.replay@.len() == 0,
    ensures
        plan_of(session).call_model,
        !plan_of(session).record_history,
{
}

/// Frames are replayed in the order the model produced them: after a real
/// predict buffers `frames` on an empty buffer, the `k`-th replayed action is
/// `frames[k]`.
pub proof fn lemma_frames_replay_in_order<A>(frames: Seq<A>, k: int)
    requires
        0 <= k < frames.len(),
    ensures
        frames.skip(k)[0] == frames[k],
        frames.skip(k).drop_first() == frames.skip(k + 1),
{
    assert(frames.skip(k).drop_first() =~= frames.skip(k + 1));
}

} // verus!
