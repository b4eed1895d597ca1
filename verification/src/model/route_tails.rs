//! Per-route request sequencing of the served model's Join stream.
//!
//! Requests complete out of arrival order, but each route is serialized: a
//! request waits for the previous request on its route before it enters the
//! handler. Every request is given a ticket; a route's tail is the ticket of
//! its latest request. A request's gate names the tickets it must wait for,
//! and it releases its own tickets when it completes. Tails whose request
//! already completed are reaped, so the map only holds routes with work in
//! flight.

use vstd::hash_map::StringHashMap;
use vstd::prelude::*;

verus! {

/// The completion signals a request must await before it enters the handler.
#[derive(Debug, Clone, PartialEq, Eq)]
pub enum RequestGate {
    /// Wait for the previous request on the same route, if there is one.
    Prev(Option<u64>),
    /// Wait for every listed request (a grouped predict or a whole-session close).
    All(Vec<u64>),
}

/// What remains of `tails` once the tails of `completed` requests are dropped.
pub open spec fn reaped(tails: Map<Seq<char>, u64>, completed: Seq<u64>) -> Map<Seq<char>, u64> {
    Map::new(
        |key: Seq<char>| tails.contains_key(key) && !completed.contains(tails[key]),
        |key: Seq<char>| tails[key],
    )
}

/// The tail a route has in `tails`, if any.
pub open spec fn tail_of(tails: Map<Seq<char>, u64>, key: Seq<char>) -> Option<u64> {
    if tails.contains_key(key) {
        Some(tails[key])
    } else {
        None
    }
}

/// The tails after a request with `ticket` on each of `keys`, in order, took
/// over those routes.
pub open spec fn take_over(tails: Map<Seq<char>, u64>, keys: Seq<Seq<char>>, first: u64) -> Map<Seq<char>, u64>
    decreases keys.len(),
{
    if keys.len() == 0 {
        tails
    } else {
        take_over(tails, keys.drop_last(), first).insert(keys.last(), (first + keys.len() - 1) as u64)
    }
}

/// The tails the routes of `keys` had, in order, skipping routes with none.
pub open spec fn prior_tails(tails: Map<Seq<char>, u64>, keys: Seq<Seq<char>>) -> Seq<u64>
    decreases keys.len(),
{
    if keys.len() == 0 {
        Seq::empty()
    } else {
        let before = prior_tails(tails, keys.drop_last());
        if tails.contains_key(keys.last()) {
            before.push(tails[keys.last()])
        } else {
            before
        }
    }
}

/// Whether no two of `keys` are the same route.
pub open spec fn distinct_keys(keys: Seq<String>) -> bool {
    forall|i: int, j: int| 0 <= i < j < keys.len() ==> (#[trigger] keys[i])@ != (#[trigger] keys[j])@
}

/// The per-route tails of one Join stream.
pub struct RouteTails {
    tails: StringHashMap<u64>,
    keys: Vec<String>,
    next_ticket: u64,
}

impl RouteTails {
    /// The tail ticket of every route with one.
    pub closed spec fn tails(&self) -> Map<Seq<char>, u64> {
        self.tails@
    }

    /// The ticket the next request receives.
    pub closed spec fn next_ticket(&self) -> u64 {
        self.next_ticket
    }

    /// The internal consistency of the map and its key list.
    pub closed spec fn wf(&self) -> bool {
        &&& distinct_keys(self.keys@)
        &&& forall|i: int| 0 <= i < self.keys@.len() ==> self.tails@.contains_key((#[trigger] self.keys@[i])@)
        &&& forall|key: Seq<char>|
            self.tails@.contains_key(key) ==> exists|i: int| 0 <= i < self.keys@.len() && (#[trigger] self.keys@[i])@ == key
        &&& forall|key: Seq<char>| self.tails@.contains_key(key) ==> #[trigger] self.tails@[key] < self.next_ticket
    }

    /// No route has a tail yet.
    pub fn new() -> (tails: Self)
        ensures
            tails.wf(),
            tails.tails() == Map::<Seq<char>, u64>::empty(),
            tails.next_ticket() == 0,
    {
        RouteTails { tails: StringHashMap::new(), keys: Vec::new(), next_ticket: 0 }
    }

    /// The number of routes with a tail.
    pub fn len(&self) -> (count: usize)
        requires
            self.wf(),
        ensures
            count == self.tails().len(),
    {
        proof {
            broadcast use vstd::hash_map::axiom_string_hash_map_spec_len;
        }
        self.tails.len()
    }

    fn position(&self, key: &String) -> (index: Option<usize>)
        requires
            self.wf(),
        ensures
            match index {
                Some(i) => i < self.keys@.len() && self.keys@[i as int]@ == key@,
                None => !self.tails@.contains_key(key@),
            },
    {
        let mut i: usize = 0;
        while i < self.keys.len()
            invariant
                self.wf(),
                i <= self.keys@.len(),
                forall|j: int| 0 <= j < i ==> (#[trigger] self.keys@[j])@ != key@,
            decreases self.keys@.len() - i,
        {
            if self.keys[i] == *key {
                return Some(i);
            }
            i = i + 1;
        }
        None
    }

    /// Take the tail of route `key` out of the map.
    fn take_tail(&mut self, key: &String) -> (prev: Option<u64>)
        requires
            old(self).wf(),
        ensures
            final(self).wf(),
            prev == tail_of(old(self).tails(), key@),
            final(self).tails() == old(self).tails().remove(key@),
            final(self).next_ticket() == old(self).next_ticket(),
            !old(self).tails().contains_key(key@) ==> final(self).keys@ == old(self).keys@,
            old(self).tails().contains_key(key@) ==> exists|i: int|
                0 <= i < old(self).keys@.len() && (#[trigger] old(self).keys@[i])@ == key@
                    && final(self).keys@ == old(self).keys@.remove(i),
    {
        match self.position(key) {
            None => {
                assert(self.tails@.remove(key@) =~= self.tails@);
                None
            },
            Some(i) => {
                let prev = match self.tails.get(key.as_str()) {
                    Some(ticket) => Some(*ticket),
                    None => None,
                };
                let ghost old_keys = self.keys@;
                self.tails.remove(key.as_str());
                self.keys.remove(i);
                proof {
                    assert forall|j: int, l: int| 0 <= j < l < self.keys@.len() implies (#[trigger] self.keys@[j])@
                        != (#[trigger] self.keys@[l])@ by {
                        let oj = if j < i { j } else { j + 1 };
                        let ol = if l < i { l } else { l + 1 };
                        assert(self.keys@[j] == old_keys[oj]);
                        assert(self.keys@[l] == old_keys[ol]);
                    }
                    assert forall|j: int| 0 <= j < self.keys@.len() implies self.tails@.contains_key(
                        (#[trigger] self.keys@[j])@,
                    ) by {
                        let oj = if j < i { j } else { j + 1 };
                        assert(self.keys@[j] == old_keys[oj]);
                        assert(old_keys[oj]@ != old_keys[i as int]@);
                    }
                    assert forall|k: Seq<char>| self.tails@.contains_key(k) implies exists|j: int|
                        0 <= j < self.keys@.len() && (#[trigger] self.keys@[j])@ == k by {
                        let oj = choose|oj: int| 0 <= oj < old_keys.len() && (#[trigger] old_keys[oj])@ == k;
                        assert(oj != i);
                        let j = if oj < i { oj } else { oj - 1 };
                        assert(self.keys@[j] == old_keys[oj]);
                    }
                }
                prev
            },
        }
    }

    /// Make `ticket` the tail of route `key`, which has none.
    fn set_tail(&mut self, key: String, ticket: u64)
        requires
            old(self).wf(),
            !old(self).tails().contains_key(key@),
            ticket < old(self).next_ticket(),
        ensures
            final(self).wf(),
            final(self).tails() == old(self).tails().insert(key@, ticket),
            final(self).next_ticket() == old(self).next_ticket(),
    {
        let ghost old_keys = self.keys@;
        let copy = key.clone();
        self.tails.insert(copy, ticket);
        self.keys.push(key);
        proof {
            assert forall|j: int, l: int| 0 <= j < l < self.keys@.len() implies (#[trigger] self.keys@[j])@
                != (#[trigger] self.keys@[l])@ by {
                if l == old_keys.len() {
                    assert(old(self).tails@.contains_key(old_keys[j]@));
                }
            }
            assert forall|k: Seq<char>| self.tails@.contains_key(k) implies exists|j: int|
                0 <= j < self.keys@.len() && (#[trigger] self.keys@[j])@ == k by {
                if k == key@ {
                    assert(self.keys@[old_keys.len() as int]@ == k);
                } else {
                    let j = choose|j: int| 0 <= j < old_keys.len() && (#[trigger] old_keys[j])@ == k;
                    assert(self.keys@[j] == old_keys[j]);
                }
            }
        }
    }

    /// Issue the next ticket.
    fn issue(&mut self) -> (ticket: u64)
        requires
            old(self).wf(),
            old(self).next_ticket() < u64::MAX,
        ensures
            final(self).wf(),
            ticket == old(self).next_ticket(),
            final(self).next_ticket() == old(self).next_ticket() + 1,
            final(self).tails() == old(self).tails(),
    {
        let ticket = self.next_ticket;
        self.next_ticket = self.next_ticket + 1;
        ticket
    }

    /// Drop the tails of requests that already completed: a completed tail
    /// means its route's last request finished, so a later request on that
    /// route has nothing to wait for.
    pub fn reap_completed(&mut self, completed: &Vec<u64>)
        requires
            old(self).wf(),
        ensures
            final(self).wf(),
            final(self).tails() == reaped(old(self).tails(), completed@),
            final(self).next_ticket() == old(self).next_ticket(),
    {
        let ghost before = self.tails@;
        let mut i: usize = 0;
        while i < self.keys.len()
            invariant
                self.wf(),
                self.next_ticket == old(self).next_ticket(),
                i <= self.keys@.len(),
                forall|j: int| 0 <= j < i ==> !completed@.contains(self.tails@[(#[trigger] self.keys@[j])@]),
                forall|key: Seq<char>| #[trigger] self.tails@.contains_key(key) ==> before.contains_key(key) && self.tails@[key] == before[key],
                forall|key: Seq<char>|
                    #[trigger] before.contains_key(key) && !completed@.contains(before[key]) ==> self.tails@.contains_key(key),
            decreases self.keys@.len() - i,
        {
            let key = self.keys[i].clone();
            let ticket = match self.tails.get(key.as_str()) {
                Some(ticket) => *ticket,
                None => 0,
            };
            if contains_ticket(completed, ticket) {
                let ghost keys_before = self.keys@;
                let ghost tails_before = self.tails@;
                assert(tails_before.contains_key(key@));
                let _ = self.take_tail(&key);
                proof {
                    let p = choose|p: int|
                        0 <= p < keys_before.len() && (#[trigger] keys_before[p])@ == key@
                            && self.keys@ == keys_before.remove(p);
                    if p != i {
                        assert(keys_before[p]@ == keys_before[i as int]@);
                        if p < i {
                            assert(keys_before[p]@ != keys_before[i as int]@);
                        } else {
                            assert(keys_before[i as int]@ != keys_before[p]@);
                        }
                    }
                    assert forall|j: int| 0 <= j < i implies !completed@.contains(
                        self.tails@[(#[trigger] self.keys@[j])@],
                    ) by {
                        assert(self.keys@[j] == keys_before[j]);
                        assert(keys_before[j]@ != key@);
                    }
                }
            } else {
                i = i + 1;
            }
        }
        proof {
            assert forall|key: Seq<char>| #[trigger] self.tails@.contains_key(key) implies !completed@.contains(
                self.tails@[key],
            ) by {
                let j = choose|j: int| 0 <= j < self.keys@.len() && (#[trigger] self.keys@[j])@ == key;
            }
            assert(self.tails@ =~= reaped(before, completed@));
        }
    }

    /// The barrier of a request on route `route_key` (`None` for a malformed
    /// request): it waits for its route's previous request, its fresh ticket
    /// becomes the route's tail, and the tails of completed requests are reaped.
    pub fn next_keyed_gate(&mut self, route_key: Option<&str>, completed: &Vec<u64>) -> (gated: (
        RequestGate,
        Vec<u64>,
    ))
        requires
            old(self).wf(),
            old(self).next_ticket() < u64::MAX,
        ensures
            final(self).wf(),
            final(self).next_ticket() == old(self).next_ticket() + 1,
            gated.1@ == seq![old(self).next_ticket()],
            match route_key {
                Some(key) => {
                    &&& gated.0 == RequestGate::Prev(tail_of(old(self).tails(), key@))
                    &&& final(self).tails() == reaped(
                        old(self).tails().insert(key@, old(self).next_ticket()),
                        completed@,
                    )
                },
                None => {
                    &&& gated.0 == RequestGate::Prev(None)
                    &&& final(self).tails() == reaped(old(self).tails(), completed@)
                },
            },
    {
        let ticket = self.issue();
        let prev = match route_key {
            Some(key) => {
                let owned = key.to_owned();
                let prev = self.take_tail(&owned);
                self.set_tail(owned, ticket);
                proof {
                    assert(old(self).tails().remove(key@).insert(key@, ticket) =~= old(self).tails().insert(
                        key@,
                        ticket,
                    ));
                }
                prev
            },
            None => None,
        };
        self.reap_completed(completed);
        let mut dones: Vec<u64> = Vec::new();
        dones.push(ticket);
        (RequestGate::Prev(prev), dones)
    }

    /// The barrier of a grouped predict over the distinct routes `keys`: it waits
    /// for the previous request of each route, takes over each route with a
    /// fresh ticket of its own (released together when it completes), and the
    /// tails of completed requests are reaped.
    pub fn next_multi_keyed_gate(&mut self, keys: &Vec<String>, completed: &Vec<u64>) -> (gated: (
        RequestGate,
        Vec<u64>,
    ))
        requires
            old(self).wf(),
            distinct_keys(keys@),
            old(self).next_ticket() + keys@.len() <= u64::MAX,
        ensures
            final(self).wf(),
            final(self).next_ticket() == old(self).next_ticket() + keys@.len(),
            gated.0 == RequestGate::All(gated.0->All_0),
            gated.0->All_0@ == prior_tails(old(self).tails(), keys@.map_values(|key: String| key@)),
            gated.1@.len() == keys@.len(),
            forall|i: int| 0 <= i < keys@.len() ==> #[trigger] gated.1@[i] == old(self).next_ticket() + i,
            final(self).tails() == reaped(
                take_over(old(self).tails(), keys@.map_values(|key: String| key@), old(self).next_ticket()),
                completed@,
            ),
    {
        let ghost start = self.tails();
        let ghost first = self.next_ticket;
        let ghost views = keys@.map_values(|key: String| key@);
        let mut prev: Vec<u64> = Vec::new();
        let mut dones: Vec<u64> = Vec::new();
        let mut i: usize = 0;
        while i < keys.len()
            invariant
                self.wf(),
                distinct_keys(keys@),
                views == keys@.map_values(|key: String| key@),
                first + keys@.len() <= u64::MAX,
                i <= keys@.len(),
                self.next_ticket == first + i,
                self.tails@ == take_over(start, views.take(i as int), first),
                prev@ == prior_tails(start, views.take(i as int)),
                dones@.len() == i,
                forall|j: int| 0 <= j < i ==> #[trigger] dones@[j] == first + j,
            decreases keys@.len() - i,
        {
            let key = keys[i].clone();
            let ticket = self.issue();
            proof {
                assert(views.take(i + 1).drop_last() =~= views.take(i as int));
                assert(views.take(i + 1).last() == key@);
                lemma_take_over_untouched(start, views, first, i as int);
            }
            let earlier = self.take_tail(&key);
            match earlier {
                Some(ticket) => prev.push(ticket),
                None => {},
            }
            self.set_tail(key, ticket);
            dones.push(ticket);
            i = i + 1;
            proof {
                assert(self.tails@ =~= take_over(start, views.take(i as int), first));
            }
        }
        proof {
            assert(views.take(keys@.len() as int) =~= views);
        }
        self.reap_completed(completed);
        (RequestGate::All(prev), dones)
    }

    /// The barrier of a whole-session close: it waits for the tail of every
    /// route, and leaves no tail behind.
    pub fn close_all_gate(&mut self) -> (gated: (RequestGate, Vec<u64>))
        requires
            old(self).wf(),
        ensures
            final(self).wf(),
            final(self).tails() == Map::<Seq<char>, u64>::empty(),
            final(self).next_ticket() == old(self).next_ticket(),
            gated.0 == RequestGate::All(gated.0->All_0),
            gated.0->All_0@.len() == old(self).tails().len(),
            forall|key: Seq<char>|
                #[trigger] old(self).tails().contains_key(key) ==> gated.0->All_0@.contains(old(self).tails()[key]),
            forall|i: int|
                0 <= i < gated.0->All_0@.len() ==> old(self).tails().contains_value(#[trigger] gated.0->All_0@[i]),
            gated.1@.len() == 0,
    {
        let mut prev: Vec<u64> = Vec::new();
        let mut i: usize = 0;
        while i < self.keys.len()
            invariant
                self.wf(),
                self.tails@ == old(self).tails(),
                self.next_ticket == old(self).next_ticket(),
                i <= self.keys@.len(),
                prev@.len() == i,
                forall|j: int| 0 <= j < i ==> #[trigger] prev@[j] == self.tails@[self.keys@[j]@],
            decreases self.keys@.len() - i,
        {
            let ticket = match self.tails.get(self.keys[i].as_str()) {
                Some(ticket) => *ticket,
                None => 0,
            };
            prev.push(ticket);
            i = i + 1;
        }
        proof {
            lemma_keys_cover_tails(self.keys@, self.tails@);
            assert forall|key: Seq<char>| #[trigger] old(self).tails().contains_key(key) implies prev@.contains(
                old(self).tails()[key],
            ) by {
                let j = choose|j: int| 0 <= j < self.keys@.len() && (#[trigger] self.keys@[j])@ == key;
                assert(prev@[j] == self.tails@[key]);
            }
            assert forall|j: int| 0 <= j < prev@.len() implies old(self).tails().contains_value(#[trigger] prev@[j]) by {
                let key = self.keys@[j]@;
                assert(prev@[j] == self.tails@[self.keys@[j]@]);
                assert(old(self).tails().dom().contains(key) && old(self).tails()[key] == prev@[j]);
            }
        }
        self.tails.clear();
        self.keys.clear();
        (RequestGate::All(prev), Vec::new())
    }
}

proof fn lemma_take_over_untouched(start: Map<Seq<char>, u64>, views: Seq<Seq<char>>, first: u64, i: int)
    requires
        0 <= i < views.len(),
        forall|a: int, b: int| 0 <= a < b < views.len() ==> views[a] != views[b],
    ensures
        take_over(start, views.take(i), first).contains_key(views[i]) == start.contains_key(views[i]),
        start.contains_key(views[i]) ==> take_over(start, views.take(i), first)[views[i]] == start[views[i]],
        prior_tails(start, views.take(i + 1)) == if start.contains_key(views[i]) {
            prior_tails(start, views.take(i)).push(start[views[i]])
        } else {
            prior_tails(start, views.take(i))
        },
    decreases i,
{
    assert(views.take(i + 1).drop_last() =~= views.take(i));
    if i > 0 {
        assert(views.take(i).drop_last() =~= views.take(i - 1));
        lemma_take_over_untouched_inner(start, views, first, i, i);
    }
}

proof fn lemma_take_over_untouched_inner(start: Map<Seq<char>, u64>, views: Seq<Seq<char>>, first: u64, i: int, n: int)
    requires
        0 <= n <= i < views.len(),
        forall|a: int, b: int| 0 <= a < b < views.len() ==> views[a] != views[b],
    ensures
        take_over(start, views.take(n), first).contains_key(views[i]) == start.contains_key(views[i]),
        start.contains_key(views[i]) ==> take_over(start, views.take(n), first)[views[i]] == start[views[i]],
    decreases n,
{
    if n > 0 {
        assert(views.take(n).drop_last() =~= views.take(n - 1));
        assert(views.take(n).last() == views[n - 1]);
        assert(views[n - 1] != views[i]);
        lemma_take_over_untouched_inner(start, views, first, i, n - 1);
    }
}

proof fn lemma_keys_cover_tails(keys: Seq<String>, tails: Map<Seq<char>, u64>)
    requires
        distinct_keys(keys),
        forall|i: int| 0 <= i < keys.len() ==> tails.contains_key((#[trigger] keys[i])@),
        forall|key: Seq<char>| tails.contains_key(key) ==> exists|i: int| 0 <= i < keys.len() && (#[trigger] keys[i])@ == key,
    ensures
        tails.dom().finite(),
        tails.len() == keys.len(),
{
    let views = keys.map_values(|key: String| key@);
    assert forall|i: int, j: int| 0 <= i < j < views.len() implies views[i] != views[j] by {
        assert(keys[i]@ != keys[j]@);
    }
    assert(views.no_duplicates());
    assert(tails.dom() =~= views.to_set()) by {
        assert forall|key: Seq<char>| tails.dom().contains(key) implies views.to_set().contains(key) by {
            let i = choose|i: int| 0 <= i < keys.len() && (#[trigger] keys[i])@ == key;
            assert(views[i] == key);
        }
        assert forall|key: Seq<char>| views.to_set().contains(key) implies tails.dom().contains(key) by {
            let i = choose|i: int| 0 <= i < views.len() && views[i] == key;
            assert(tails.contains_key(keys[i]@));
        }
    }
    views.unique_seq_to_set();
}

/// Whether `ticket` is one of `completed`.
fn contains_ticket(completed: &Vec<u64>, ticket: u64) -> (found: bool)
    ensures
        found == completed@.contains(ticket),
{
    let mut i: usize = 0;
    while i < completed.len()
        invariant
            i <= completed@.len(),
            forall|j: int| 0 <= j < i ==> completed@[j] != ticket,
        decreases completed@.len() - i,
    {
        if completed[i] == ticket {
            return true;
        }
        i = i + 1;
    }
    false
}

/// A request chains behind the previous request on its route: right after a
/// request with `ticket` took over route `key`, the route's tail is that
/// ticket unless the request already completed, so the next request on the
/// route waits for it.
pub proof fn lemma_same_route_chains(tails: Map<Seq<char>, u64>, key: Seq<char>, ticket: u64, completed: Seq<u64>)
    requires
        !completed.contains(ticket),
    ensures
        tail_of(reaped(tails.insert(key, ticket), completed), key) == Some(ticket),
{
}

/// The tails stay bounded: after reaping, every tail left belongs to a request
/// still in flight.
pub proof fn lemma_reaped_tails_in_flight(tails: Map<Seq<char>, u64>, completed: Seq<u64>)
    ensures
        forall|key: Seq<char>| #[trigger] reaped(tails, completed).contains_key(key) ==> !completed.contains(
            reaped(tails, completed)[key],
        ),
        forall|key: Seq<char>| #[trigger] reaped(tails, completed).contains_key(key) ==> tails.contains_key(key),
{
}

/// The distinct route keys among `group_keys`, in first-seen order.
pub open spec fn first_seen(group_keys: Seq<Option<String>>) -> Seq<Seq<char>>
    decreases group_keys.len(),
{
    if group_keys.len() == 0 {
        Seq::empty()
    } else {
        let before = first_seen(group_keys.drop_last());
        match group_keys.last() {
            Some(key) => if before.contains(key@) {
                before
            } else {
                before.push(key@)
            },
            None => before,
        }
    }
}

/// The deduplicated route keys of a grouped predict's groups, in first-seen
/// order; a group with no route key contributes none.
pub fn grouped_route_keys(group_keys: &Vec<Option<String>>) -> (keys: Vec<String>)
    ensures
        keys@.map_values(|key: String| key@) == first_seen(group_keys@),
        distinct_keys(keys@),
{
    let mut keys: Vec<String> = Vec::new();
    let mut g: usize = 0;
    while g < group_keys.len()
        invariant
            g <= group_keys@.len(),
            distinct_keys(keys@),
            keys@.map_values(|key: String| key@) == first_seen(group_keys@.take(g as int)),
        decreases group_keys@.len() - g,
    {
        let ghost keys_before = keys@;
        proof {
            assert(group_keys@.take(g + 1).drop_last() =~= group_keys@.take(g as int));
            assert(group_keys@.take(g + 1).last() == group_keys@[g as int]);
        }
        match &group_keys[g] {
            Some(key) => {
                let mut seen = false;
                let mut i: usize = 0;
                while i < keys.len()
                    invariant
                        i <= keys@.len(),
                        seen <==> exists|j: int| #![trigger keys@[j]] 0 <= j < i && keys@[j]@ == key@,
                    decreases keys@.len() - i,
                {
                    if keys[i] == *key {
                        seen = true;
                    }
                    i = i + 1;
                }
                proof {
                    let views = keys@.map_values(|k: String| k@);
                    if seen {
                        let j = choose|j: int| #![trigger keys@[j]] 0 <= j < i && keys@[j]@ == key@;
                        assert(views[j] == key@);
                    } else {
                        assert forall|j: int| 0 <= j < views.len() implies views[j] != key@ by {
                            assert(views[j] == keys@[j]@);
                        }
                    }
                }
                if !seen {
                    keys.push(key.clone());
                    proof {
                        assert(keys@[keys@.len() - 1]@ == key@);
                        assert forall|a: int, b: int| 0 <= a < b < keys@.len() implies (#[trigger] keys@[a])@
                            != (#[trigger] keys@[b])@ by {
                            if b == keys@.len() - 1 {
                                assert(keys@[a] == keys_before[a]);
                                assert(keys_before.map_values(|k: String| k@)[a] == keys_before[a]@);
                            } else {
                                assert(keys@[a] == keys_before[a]);
                                assert(keys@[b] == keys_before[b]);
                            }
                        }
                        assert(keys@.map_values(|k: String| k@) =~= keys_before.map_values(|k: String| k@).push(key@));
                    }
                }
            },
            None => {},
        }
        g = g + 1;
    }
    assert(group_keys@.take(group_keys@.len() as int) =~= group_keys@);
    keys
}

} // verus!
