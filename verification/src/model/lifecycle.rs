//! The episode lifecycle bookkeeping of a served model: which episode each
//! lane of each route is in, which episode ends and lane resets an
//! observation announces, and the episode ends a route's or the session's
//! close reports, in `(env_index, episode_id)` order.
//!
//! The handler's hooks run between these steps; each step says which hooks
//! fire.

use vstd::prelude::*;

use crate::text::{lemma_text_lt_total, lemma_text_lt_transitive, text_less, text_lt};

verus! {

/// The end of one episode on one lane.
#[derive(Debug, Clone, PartialEq, Eq)]
pub struct ModelEpisodeEnd {
    /// The episode that ended.
    pub episode_id: String,
    /// The lane it ran on.
    pub env_index: i32,
}

/// The lane of a route an episode is active on.
#[derive(Debug, Clone, PartialEq, Eq)]
pub struct ActiveEpisode {
    /// The route the lane belongs to.
    pub route_key: String,
    /// The lane.
    pub env_index: i32,
    /// The episode active on it.
    pub episode_id: String,
}

/// The episode a sequence of active entries records for a lane (the last
/// entry for it).
pub open spec fn active_of(entries: Seq<ActiveEpisode>, route_key: Seq<char>, env_index: i32) -> Option<Seq<char>>
    decreases entries.len(),
{
    if entries.len() == 0 {
        None
    } else if entries.last().route_key@ == route_key && entries.last().env_index == env_index {
        Some(entries.last().episode_id@)
    } else {
        active_of(entries.drop_last(), route_key, env_index)
    }
}

/// Whether episode end `a` sorts no later than `b`: by lane, then by episode id.
pub open spec fn end_le(a: ModelEpisodeEnd, b: ModelEpisodeEnd) -> bool {
    a.env_index < b.env_index || (a.env_index == b.env_index && !text_lt(b.episode_id@, a.episode_id@))
}

/// Whether `ends` is sorted by lane, then episode id.
pub open spec fn sorted_ends(ends: Seq<ModelEpisodeEnd>) -> bool {
    forall|i: int, j: int| 0 <= i < j < ends.len() ==> end_le(#[trigger] ends[i], #[trigger] ends[j])
}

proof fn lemma_end_le_total(a: ModelEpisodeEnd, b: ModelEpisodeEnd)
    ensures
        end_le(a, b) || end_le(b, a),
{
    lemma_text_lt_total(a.episode_id@, b.episode_id@);
}

proof fn lemma_end_le_transitive(a: ModelEpisodeEnd, b: ModelEpisodeEnd, c: ModelEpisodeEnd)
    requires
        end_le(a, b),
        end_le(b, c),
    ensures
        end_le(a, c),
{
    if a.env_index == b.env_index && b.env_index == c.env_index {
        lemma_text_lt_total(a.episode_id@, b.episode_id@);
        lemma_text_lt_total(b.episode_id@, c.episode_id@);
        lemma_text_lt_total(a.episode_id@, c.episode_id@);
        if text_lt(c.episode_id@, a.episode_id@) {
            if a.episode_id@ == b.episode_id@ {
            } else if b.episode_id@ == c.episode_id@ {
            } else {
                lemma_text_lt_transitive(c.episode_id@, a.episode_id@, b.episode_id@);
            }
        }
    }
}

fn end_le_exec(a: &ModelEpisodeEnd, b: &ModelEpisodeEnd) -> (le: bool)
    ensures
        le == end_le(*a, *b),
{
    a.env_index < b.env_index || (a.env_index == b.env_index && !text_less(
        b.episode_id.as_str(),
        a.episode_id.as_str(),
    ))
}

/// Sort episode ends by lane, then episode id.
pub fn sort_ends(ends: Vec<ModelEpisodeEnd>) -> (sorted: Vec<ModelEpisodeEnd>)
    ensures
        sorted_ends(sorted@),
        sorted@.to_multiset() == ends@.to_multiset(),
{
    broadcast use vstd::seq_lib::to_multiset_insert, vstd::seq_lib::to_multiset_build;

    let ghost input = ends@;
    let count = ends.len();
    let mut rest = ends;
    let mut sorted: Vec<ModelEpisodeEnd> = Vec::new();
    let mut k: usize = 0;
    assert(sorted@ =~= input.take(0));
    while rest.len() > 0
        invariant
            count == input.len(),
            k + rest@.len() == count,
            rest@ == input.skip(k as int),
            sorted_ends(sorted@),
            sorted@.to_multiset() == input.take(k as int).to_multiset(),
        decreases rest@.len(),
    {
        let item = rest.remove(0);
        assert(item == input[k as int]);
        let mut p: usize = 0;
        while p < sorted.len() && end_le_exec(&sorted[p], &item)
            invariant
                p <= sorted@.len(),
                forall|q: int| 0 <= q < p ==> end_le(#[trigger] sorted@[q], item),
            decreases sorted@.len() - p,
        {
            p = p + 1;
        }
        let ghost before = sorted@;
        sorted.insert(p, item);
        proof {
            assert(sorted@ =~= before.insert(p as int, item));
            assert forall|i: int, j: int| 0 <= i < j < sorted@.len() implies end_le(
                #[trigger] sorted@[i],
                #[trigger] sorted@[j],
            ) by {
                if j < p {
                    assert(sorted@[i] == before[i] && sorted@[j] == before[j]);
                } else if j == p {
                    assert(sorted@[i] == before[i]);
                } else if i == p {
                    assert(sorted@[j] == before[j - 1]);
                    assert(!end_le(before[p as int], item));
                    lemma_end_le_total(before[p as int], item);
                    if j - 1 > p {
                        lemma_end_le_transitive(item, before[p as int], before[j - 1]);
                    }
                } else if i < p {
                    assert(sorted@[i] == before[i] && sorted@[j] == before[j - 1]);
                } else {
                    assert(sorted@[i] == before[i - 1] && sorted@[j] == before[j - 1]);
                }
            }
            assert(input.take(k + 1) =~= input.take(k as int).push(item));
            vstd::seq_lib::to_multiset_insert(before, p as int, item);
            vstd::seq_lib::to_multiset_build(input.take(k as int), item);
        }
        k = k + 1;
        assert(rest@ =~= input.skip(k as int));
    }
    assert(input.take(count as int) =~= input);
    sorted
}

/// The active episodes of a session, one per route lane.
pub struct ActiveEpisodes {
    entries: Vec<ActiveEpisode>,
}

/// Whether no two entries are for the same route lane.
pub open spec fn unique_lanes(entries: Seq<ActiveEpisode>) -> bool {
    forall|i: int, j: int|
        0 <= i < j < entries.len() ==> !((#[trigger] entries[i]).route_key@ == (#[trigger] entries[j]).route_key@
            && entries[i].env_index == entries[j].env_index)
}

/// The episode ends of `entries`, in order.
pub open spec fn ends_of(entries: Seq<ActiveEpisode>) -> Seq<ModelEpisodeEnd> {
    Seq::new(entries.len(), |j: int| ModelEpisodeEnd { episode_id: entries[j].episode_id, env_index: entries[j].env_index })
}

/// The entries of `entries` on route `route_key`, in order.
pub open spec fn route_entries(entries: Seq<ActiveEpisode>, route_key: Seq<char>) -> Seq<ActiveEpisode>
    decreases entries.len(),
{
    if entries.len() == 0 {
        Seq::empty()
    } else if entries.last().route_key@ == route_key {
        route_entries(entries.drop_last(), route_key).push(entries.last())
    } else {
        route_entries(entries.drop_last(), route_key)
    }
}

/// What one lane of a vector observation announces.
#[derive(Debug, Clone, PartialEq, Eq)]
pub struct LaneEdges {
    /// The episode that ended on the lane, when its id rolled.
    pub ended: Option<ModelEpisodeEnd>,
    /// Whether the lane starts an episode (it rolled, or the observation
    /// marks it reset).
    pub lane_reset: bool,
}

/// What a single-lane observation announces.
#[derive(Debug, Clone, PartialEq, Eq)]
pub struct SingleEdges {
    /// The episode that ended on the lane, when a reset replaced it.
    pub ended: Option<ModelEpisodeEnd>,
    /// Whether the lane's reset fires (a lane reset and then a vector reset).
    pub reset: bool,
}

impl ActiveEpisodes {
    /// The episode active on `env_index` of `route_key`, if any.
    pub closed spec fn active(self, route_key: Seq<char>, env_index: i32) -> Option<Seq<char>> {
        active_of(self.entries@, route_key, env_index)
    }

    /// The active entries, in the order they were first recorded.
    pub closed spec fn entries(self) -> Seq<ActiveEpisode> {
        self.entries@
    }

    /// Every route lane has at most one entry.
    pub closed spec fn wf(self) -> bool {
        unique_lanes(self.entries@)
    }

    /// No active episode.
    pub fn new() -> (active: Self)
        ensures
            active.wf(),
            active.entries().len() == 0,
            forall|route: Seq<char>, index: i32| active.active(route, index) is None,
    {
        ActiveEpisodes { entries: Vec::new() }
    }

    fn position(&self, route_key: &str, env_index: i32) -> (found: Option<usize>)
        ensures
            match found {
                Some(i) => i < self.entries@.len() && self.entries@[i as int].route_key@ == route_key@
                    && self.entries@[i as int].env_index == env_index && forall|j: int|
                    i < j < self.entries@.len() ==> !((#[trigger] self.entries@[j]).route_key@ == route_key@
                        && self.entries@[j].env_index == env_index),
                None => forall|j: int|
                    0 <= j < self.entries@.len() ==> !((#[trigger] self.entries@[j]).route_key@ == route_key@
                        && self.entries@[j].env_index == env_index),
            },
    {
        let mut i = self.entries.len();
        while i > 0
            invariant
                i <= self.entries@.len(),
                forall|j: int|
                    i <= j < self.entries@.len() ==> !((#[trigger] self.entries@[j]).route_key@ == route_key@
                        && self.entries@[j].env_index == env_index),
            decreases i,
        {
            let entry = &self.entries[i - 1];
            if entry.env_index == env_index && crate::text::same_text(entry.route_key.as_str(), route_key) {
                return Some(i - 1);
            }
            i = i - 1;
        }
        None
    }

    /// Make `episode_id` the active episode of `env_index` on `route_key`,
    /// returning the episode it replaces.
    pub fn insert(&mut self, route_key: &str, env_index: i32, episode_id: String) -> (previous: Option<String>)
        requires
            old(self).wf(),
        ensures
            final(self).wf(),
            match previous {
                Some(p) => old(self).active(route_key@, env_index) == Some(p@),
                None => old(self).active(route_key@, env_index) is None,
            },
            final(self).active(route_key@, env_index) == Some(episode_id@),
            forall|route: Seq<char>, index: i32|
                !(route == route_key@ && index == env_index) ==> #[trigger] final(self).active(route, index)
                    == old(self).active(route, index),
    {
        let ghost before = self.entries@;
        match self.position(route_key, env_index) {
            Some(i) => {
                let old_entry = self.entries.remove(i);
                let entry = ActiveEpisode { route_key: old_entry.route_key, env_index, episode_id };
                let ghost new_entry = entry;
                self.entries.insert(i, entry);
                proof {
                    assert(self.entries@ =~= before.update(i as int, new_entry));
                    lemma_active_update(before, i as int, new_entry);
                    lemma_active_found(before, i as int);
                    assert forall|a: int, b: int| 0 <= a < b < self.entries@.len() implies !((#[trigger] self.entries@[a]).route_key@
                        == (#[trigger] self.entries@[b]).route_key@ && self.entries@[a].env_index == self.entries@[b].env_index) by {
                        assert(self.entries@[a].route_key@ == before[a].route_key@);
                        assert(self.entries@[b].route_key@ == before[b].route_key@);
                    }
                }
                Some(old_entry.episode_id)
            },
            None => {
                let entry = ActiveEpisode { route_key: route_key.to_owned(), env_index, episode_id };
                let ghost new_entry = entry;
                self.entries.push(entry);
                proof {
                    lemma_active_absent(before, route_key@, env_index);
                    assert(self.entries@.drop_last() =~= before);
                    assert forall|a: int, b: int| 0 <= a < b < self.entries@.len() implies !((#[trigger] self.entries@[a]).route_key@
                        == (#[trigger] self.entries@[b]).route_key@ && self.entries@[a].env_index == self.entries@[b].env_index) by {
                        if b == before.len() {
                            assert(self.entries@[a] == before[a]);
                        }
                    }
                }
                None
            },
        }
    }

    /// A lane of a vector observation: its episode becomes active; if it
    /// replaced a different episode, that episode ended and the lane starts
    /// afresh; the observation's own reset flag starts it too.
    pub fn lane_update(&mut self, route_key: &str, env_index: i32, episode_id: String, slot_reset: bool) -> (edges: LaneEdges)
        requires
            old(self).wf(),
        ensures
            final(self).wf(),
            final(self).active(route_key@, env_index) == Some(episode_id@),
            forall|route: Seq<char>, index: i32|
                !(route == route_key@ && index == env_index) ==> #[trigger] final(self).active(route, index)
                    == old(self).active(route, index),
            match old(self).active(route_key@, env_index) {
                Some(previous) if previous != episode_id@ => edges.ended matches Some(end)
                    && end.episode_id@ == previous && end.env_index == env_index && edges.lane_reset,
                _ => edges.ended is None && edges.lane_reset == slot_reset,
            },
    {
        let current = episode_id.clone();
        let previous = self.insert(route_key, env_index, episode_id);
        match previous {
            Some(previous) => {
                if crate::text::same_text(previous.as_str(), current.as_str()) {
                    LaneEdges { ended: None, lane_reset: slot_reset }
                } else {
                    LaneEdges { ended: Some(ModelEpisodeEnd { episode_id: previous, env_index }), lane_reset: true }
                }
            },
            None => LaneEdges { ended: None, lane_reset: slot_reset },
        }
    }

    /// A single-lane observation: on a reset its episode becomes active, a
    /// different episode it replaced ended, and the lane's reset fires;
    /// otherwise its episode is recorded only when the lane has none.
    pub fn single_update(&mut self, route_key: &str, env_index: i32, episode_id: String, reset: bool) -> (edges: SingleEdges)
        requires
            old(self).wf(),
        ensures
            final(self).wf(),
            reset ==> final(self).active(route_key@, env_index) == Some(episode_id@) && edges.reset
                && match old(self).active(route_key@, env_index) {
                Some(previous) if previous != episode_id@ => edges.ended matches Some(end)
                    && end.episode_id@ == previous && end.env_index == env_index,
                _ => edges.ended is None,
            },
            !reset ==> !edges.reset && edges.ended is None && final(self).active(route_key@, env_index)
                == match old(self).active(route_key@, env_index) {
                Some(previous) => Some(previous),
                None => Some(episode_id@),
            },
            forall|route: Seq<char>, index: i32|
                !(route == route_key@ && index == env_index) ==> #[trigger] final(self).active(route, index)
                    == old(self).active(route, index),
    {
        if reset {
            let current = episode_id.clone();
            let previous = self.insert(route_key, env_index, episode_id);
            let ended = match previous {
                Some(previous) => if crate::text::same_text(previous.as_str(), current.as_str()) {
                    None
                } else {
                    Some(ModelEpisodeEnd { episode_id: previous, env_index })
                },
                None => None,
            };
            SingleEdges { ended, reset: true }
        } else {
            match self.position(route_key, env_index) {
                Some(i) => {
                    proof {
                        assert(self.entries@[i as int].route_key@ == route_key@);
                        lemma_active_present(self.entries@, route_key@, env_index);
                    }
                },
                None => {
                    proof {
                        lemma_active_absent(self.entries@, route_key@, env_index);
                    }
                    let _ = self.insert(route_key, env_index, episode_id);
                },
            }
            SingleEdges { ended: None, reset: false }
        }
    }

    /// The episode ends a route's close reports: every active episode of
    /// `route_key`, sorted by lane, then episode id.
    pub fn route_ends(&self, route_key: &str) -> (ends: Vec<ModelEpisodeEnd>)
        ensures
            sorted_ends(ends@),
            ends@.to_multiset() == ends_of(route_entries(self.entries(), route_key@)).to_multiset(),
    {
        let mut collected: Vec<ModelEpisodeEnd> = Vec::new();
        let mut i: usize = 0;
        while i < self.entries.len()
            invariant
                i <= self.entries@.len(),
                collected@ == ends_of(route_entries(self.entries@.take(i as int), route_key@)),
            decreases self.entries@.len() - i,
        {
            let entry = &self.entries[i];
            proof {
                assert(self.entries@.take(i + 1).drop_last() =~= self.entries@.take(i as int));
                assert(self.entries@.take(i + 1).last() == self.entries@[i as int]);
            }
            if crate::text::same_text(entry.route_key.as_str(), route_key) {
                let ghost before = collected@;
                collected.push(ModelEpisodeEnd { episode_id: entry.episode_id.clone(), env_index: entry.env_index });
                proof {
                    assert(collected@ =~= ends_of(route_entries(self.entries@.take(i + 1), route_key@)));
                }
            } else {
                assert(collected@ =~= ends_of(route_entries(self.entries@.take(i + 1), route_key@)));
            }
            i = i + 1;
        }
        assert(self.entries@.take(self.entries@.len() as int) =~= self.entries@);
        sort_ends(collected)
    }

    /// Forget the active episode of `env_index` on `route_key`.
    pub fn remove(&mut self, route_key: &str, env_index: i32)
        requires
            old(self).wf(),
        ensures
            final(self).wf(),
            final(self).active(route_key@, env_index) is None,
            forall|route: Seq<char>, index: i32|
                !(route == route_key@ && index == env_index) ==> #[trigger] final(self).active(route, index)
                    == old(self).active(route, index),
    {
        let ghost before = self.entries@;
        match self.position(route_key, env_index) {
            Some(i) => {
                let _ = self.entries.remove(i);
                proof {
                    assert(self.entries@ =~= before.remove(i as int));
                    lemma_active_remove(before, i as int);
                    assert forall|a: int, b: int| 0 <= a < b < self.entries@.len() implies !((#[trigger] self.entries@[a]).route_key@
                        == (#[trigger] self.entries@[b]).route_key@ && self.entries@[a].env_index == self.entries@[b].env_index) by {
                        let oa = if a < i { a } else { a + 1 };
                        let ob = if b < i { b } else { b + 1 };
                        assert(self.entries@[a] == before[oa]);
                        assert(self.entries@[b] == before[ob]);
                    }
                }
            },
            None => {
                proof {
                    lemma_active_absent(before, route_key@, env_index);
                }
            },
        }
    }

    /// The episode ends the session's close reports: every active episode,
    /// sorted by lane, then episode id; none stays active.
    pub fn drain_all(&mut self) -> (ends: Vec<ModelEpisodeEnd>)
        requires
            old(self).wf(),
        ensures
            final(self).wf(),
            final(self).entries().len() == 0,
            forall|route: Seq<char>, index: i32| final(self).active(route, index) is None,
            sorted_ends(ends@),
            ends@.to_multiset() == ends_of(old(self).entries()).to_multiset(),
    {
        let mut collected: Vec<ModelEpisodeEnd> = Vec::new();
        let mut i: usize = 0;
        while i < self.entries.len()
            invariant
                i <= self.entries@.len(),
                collected@ == ends_of(self.entries@.take(i as int)),
            decreases self.entries@.len() - i,
        {
            let entry = &self.entries[i];
            collected.push(ModelEpisodeEnd { episode_id: entry.episode_id.clone(), env_index: entry.env_index });
            i = i + 1;
            assert(collected@ =~= ends_of(self.entries@.take(i as int)));
        }
        assert(self.entries@.take(self.entries@.len() as int) =~= self.entries@);
        self.entries = Vec::new();
        sort_ends(collected)
    }
}

proof fn lemma_active_update(entries: Seq<ActiveEpisode>, i: int, entry: ActiveEpisode)
    requires
        0 <= i < entries.len(),
        entry.route_key@ == entries[i].route_key@,
        entry.env_index == entries[i].env_index,
        forall|j: int| i < j < entries.len() ==> !((#[trigger] entries[j]).route_key@ == entry.route_key@
            && entries[j].env_index == entry.env_index),
    ensures
        active_of(entries.update(i, entry), entry.route_key@, entry.env_index) == Some(entry.episode_id@),
        forall|route: Seq<char>, index: i32|
            !(route == entry.route_key@ && index == entry.env_index) ==> #[trigger] active_of(entries.update(i, entry), route, index)
                == active_of(entries, route, index),
    decreases entries.len(),
{
    let updated = entries.update(i, entry);
    if i < entries.len() - 1 {
        assert(updated.drop_last() =~= entries.drop_last().update(i, entry));
        assert forall|j: int| i < j < entries.drop_last().len() implies !((#[trigger] entries.drop_last()[j]).route_key@
            == entry.route_key@ && entries.drop_last()[j].env_index == entry.env_index) by {
            assert(entries.drop_last()[j] == entries[j]);
        }
        lemma_active_update(entries.drop_last(), i, entry);
        assert forall|route: Seq<char>, index: i32|
            !(route == entry.route_key@ && index == entry.env_index) implies #[trigger] active_of(updated, route, index)
                == active_of(entries, route, index) by {
            assert(updated.last() == entries.last());
            assert(active_of(updated.drop_last(), route, index) == active_of(entries.drop_last(), route, index));
        }
    } else {
        assert(updated.drop_last() =~= entries.drop_last());
    }
}

proof fn lemma_active_found(entries: Seq<ActiveEpisode>, i: int)
    requires
        0 <= i < entries.len(),
        forall|j: int| i < j < entries.len() ==> !((#[trigger] entries[j]).route_key@ == entries[i].route_key@
            && entries[j].env_index == entries[i].env_index),
    ensures
        active_of(entries, entries[i].route_key@, entries[i].env_index) == Some(entries[i].episode_id@),
    decreases entries.len(),
{
    if i < entries.len() - 1 {
        assert(entries.drop_last()[i] == entries[i]);
        assert forall|j: int| i < j < entries.drop_last().len() implies !((#[trigger] entries.drop_last()[j]).route_key@
            == entries.drop_last()[i].route_key@ && entries.drop_last()[j].env_index == entries.drop_last()[i].env_index) by {
            assert(entries.drop_last()[j] == entries[j]);
        }
        lemma_active_found(entries.drop_last(), i);
    }
}

proof fn lemma_active_absent(entries: Seq<ActiveEpisode>, route_key: Seq<char>, env_index: i32)
    requires
        forall|j: int| 0 <= j < entries.len() ==> !((#[trigger] entries[j]).route_key@ == route_key
            && entries[j].env_index == env_index),
    ensures
        active_of(entries, route_key, env_index) is None,
    decreases entries.len(),
{
    if entries.len() > 0 {
        assert forall|j: int| 0 <= j < entries.drop_last().len() implies !((#[trigger] entries.drop_last()[j]).route_key@
            == route_key && entries.drop_last()[j].env_index == env_index) by {
            assert(entries.drop_last()[j] == entries[j]);
        }
        lemma_active_absent(entries.drop_last(), route_key, env_index);
    }
}

proof fn lemma_active_present(entries: Seq<ActiveEpisode>, route_key: Seq<char>, env_index: i32)
    requires
        exists|j: int| 0 <= j < entries.len() && (#[trigger] entries[j]).route_key@ == route_key
            && entries[j].env_index == env_index,
    ensures
        active_of(entries, route_key, env_index) is Some,
    decreases entries.len(),
{
    if !(entries.last().route_key@ == route_key && entries.last().env_index == env_index) {
        let j = choose|j: int| 0 <= j < entries.len() && (#[trigger] entries[j]).route_key@ == route_key
            && entries[j].env_index == env_index;
        assert(j < entries.len() - 1);
        assert(entries.drop_last()[j] == entries[j]);
        lemma_active_present(entries.drop_last(), route_key, env_index);
    }
}

proof fn lemma_active_remove(entries: Seq<ActiveEpisode>, i: int)
    requires
        0 <= i < entries.len(),
        unique_lanes(entries),
    ensures
        active_of(entries.remove(i), entries[i].route_key@, entries[i].env_index) is None,
        forall|route: Seq<char>, index: i32|
            !(route == entries[i].route_key@ && index == entries[i].env_index) ==> #[trigger] active_of(
                entries.remove(i),
                route,
                index,
            ) == active_of(entries, route, index),
    decreases entries.len(),
{
    let removed = entries.remove(i);
    if i == entries.len() - 1 {
        assert(removed =~= entries.drop_last());
        assert forall|j: int| 0 <= j < removed.len() implies !((#[trigger] removed[j]).route_key@ == entries[i].route_key@
            && removed[j].env_index == entries[i].env_index) by {
            assert(removed[j] == entries[j]);
        }
        lemma_active_absent(removed, entries[i].route_key@, entries[i].env_index);
    } else {
        assert(removed.drop_last() =~= entries.drop_last().remove(i));
        assert(removed.last() == entries.last());
        assert(entries.drop_last()[i] == entries[i]);
        assert forall|a: int, b: int| 0 <= a < b < entries.drop_last().len() implies !((#[trigger] entries.drop_last()[a]).route_key@
            == (#[trigger] entries.drop_last()[b]).route_key@ && entries.drop_last()[a].env_index == entries.drop_last()[b].env_index) by {
            assert(entries.drop_last()[a] == entries[a]);
            assert(entries.drop_last()[b] == entries[b]);
        }
        lemma_active_remove(entries.drop_last(), i);
        assert(!(entries.last().route_key@ == entries[i].route_key@ && entries.last().env_index == entries[i].env_index));
        assert forall|route: Seq<char>, index: i32|
            !(route == entries[i].route_key@ && index == entries[i].env_index) implies #[trigger] active_of(removed, route, index)
                == active_of(entries, route, index) by {
            assert(active_of(removed.drop_last(), route, index) == active_of(entries.drop_last(), route, index));
        }
    }
}

/// The key a route's lifecycle state is kept under: `<session_id>:<route_id>`.
pub fn route_state_key(route: &crate::model::wire::PredictRoute) -> (key: String)
    ensures
        key@ == route.session_id@ + ":"@ + route.route_id@,
{
    let mut key = route.session_id.clone();
    key.append(":");
    key.append(route.route_id.as_str());
    proof {
        reveal_strlit(":");
    }
    key
}

} // verus!
