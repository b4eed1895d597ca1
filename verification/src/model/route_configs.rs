//! The served model's resolved routes: what a resolve-adapter request stores
//! under its route key, what a predict reads back, and what a release or a
//! whole-session close tears down.

use vstd::hash_map::StringHashMap;
use vstd::prelude::*;

use crate::error::Error;
use crate::model::route_tails::distinct_keys;
use crate::spaces::{EnvContract, SpaceSpec};

verus! {

/// What a resolved route holds: the env contract its adapter was resolved
/// against and the workflow edition the runtime pinned it to, if any.
#[derive(Debug, PartialEq)]
pub struct RouteConfig {
    /// The env's contract, as the resolve request carried it.
    pub env_contract: EnvContract,
    /// The workflow edition the runtime pinned; none for an unpinned route.
    pub floor: Option<String>,
}

/// The outcome of preparing a predict on route `key` of `configs`: the
/// route's action space, or the message of the model error when the route
/// was never resolved (or was released) or its contract has no action space.
pub open spec fn prepare_outcome(configs: Map<Seq<char>, RouteConfig>, key: Seq<char>) -> Result<
    SpaceSpec,
    Seq<char>,
> {
    if !configs.contains_key(key) {
        Err(unresolved_route_text())
    } else {
        match configs[key].env_contract.action_space {
            Some(space) => Ok(space),
            None => Err(missing_route_action_space_text()),
        }
    }
}

/// The message of a predict on a route that was never resolved.
pub open spec fn unresolved_route_text() -> Seq<char> {
    "model env adapter was not resolved"@
}

/// The message of a predict on a route whose contract has no action space.
pub open spec fn missing_route_action_space_text() -> Seq<char> {
    "model route contract missing action space"@
}

/// The resolved routes of one model server, by route key.
pub struct RouteConfigs {
    configs: StringHashMap<RouteConfig>,
    keys: Vec<String>,
}

impl RouteConfigs {
    /// The config of every resolved route, by route key.
    pub closed spec fn configs(&self) -> Map<Seq<char>, RouteConfig> {
        self.configs@
    }

    /// The resolved route keys, in the order they were first resolved.
    pub closed spec fn keys(&self) -> Seq<Seq<char>> {
        self.keys@.map_values(|k: String| k@)
    }

    /// The key list names each resolved route exactly once.
    pub closed spec fn wf(&self) -> bool {
        &&& distinct_keys(self.keys@)
        &&& forall|i: int| 0 <= i < self.keys@.len() ==> self.configs@.contains_key((#[trigger] self.keys@[i])@)
        &&& forall|key: Seq<char>|
            self.configs@.contains_key(key) ==> exists|i: int| 0 <= i < self.keys@.len() && (#[trigger] self.keys@[i])@ == key
    }

    /// No route is resolved.
    pub fn new() -> (routes: Self)
        ensures
            routes.wf(),
            routes.configs() == Map::<Seq<char>, RouteConfig>::empty(),
            routes.keys().len() == 0,
    {
        let routes = RouteConfigs { configs: StringHashMap::new(), keys: Vec::new() };
        proof {
            assert(routes.keys() =~= Seq::<Seq<char>>::empty());
        }
        routes
    }

    /// The number of resolved routes.
    pub fn len(&self) -> (count: usize)
        requires
            self.wf(),
        ensures
            count == self.configs().len(),
    {
        proof {
            broadcast use vstd::hash_map::axiom_string_hash_map_spec_len;
        }
        self.configs.len()
    }

    fn position(&self, key: &str) -> (index: Option<usize>)
        requires
            self.wf(),
        ensures
            match index {
                Some(i) => i < self.keys@.len() && self.keys@[i as int]@ == key@,
                None => !self.configs@.contains_key(key@),
            },
    {
        let mut i: usize = 0;
        while i < self.keys.len()
            invariant
                self.wf(),
                i <= self.keys@.len(),
                forall|j: int| 0 <= j < i ==> (#[trigger] self.keys@[j])@ != key@,
            decreases self.keys@.len() - i,
        {
            if crate::text::same_text(self.keys[i].as_str(), key) {
                return Some(i);
            }
            i = i + 1;
        }
        None
    }

    /// Store `config` under route `key`, replacing any earlier config of that
    /// route (a route resolved again keeps its place in the key order).
    pub fn resolve(&mut self, key: String, config: RouteConfig)
        requires
            old(self).wf(),
        ensures
            final(self).wf(),
            final(self).configs() == old(self).configs().insert(key@, config),
            old(self).configs().contains_key(key@) ==> final(self).keys() == old(self).keys(),
            !old(self).configs().contains_key(key@) ==> final(self).keys() == old(self).keys().push(key@),
    {
        let ghost old_keys = self.keys@;
        match self.position(key.as_str()) {
            Some(i) => {
                let ghost key_view = key@;
                self.configs.insert(key, config);
                proof {
                    assert forall|k: Seq<char>| self.configs@.contains_key(k) implies exists|j: int|
                        0 <= j < self.keys@.len() && (#[trigger] self.keys@[j])@ == k by {
                        if k == key_view {
                            assert(self.keys@[i as int]@ == k);
                        } else {
                            assert(old(self).configs@.contains_key(k));
                            let j = choose|j: int| 0 <= j < old_keys.len() && (#[trigger] old_keys[j])@ == k;
                            assert(self.keys@[j] == old_keys[j]);
                        }
                    }
                }
            },
            None => {
                let copy = key.clone();
                self.configs.insert(copy, config);
                self.keys.push(key);
                proof {
                    assert forall|j: int, l: int| 0 <= j < l < self.keys@.len() implies (#[trigger] self.keys@[j])@
                        != (#[trigger] self.keys@[l])@ by {
                        if l == old_keys.len() {
                            assert(old(self).configs@.contains_key(old_keys[j]@));
                        }
                    }
                    assert forall|k: Seq<char>| self.configs@.contains_key(k) implies exists|j: int|
                        0 <= j < self.keys@.len() && (#[trigger] self.keys@[j])@ == k by {
                        if k == key@ {
                            assert(self.keys@[old_keys.len() as int]@ == k);
                        } else {
                            let j = choose|j: int| 0 <= j < old_keys.len() && (#[trigger] old_keys[j])@ == k;
                            assert(self.keys@[j] == old_keys[j]);
                        }
                    }
                    assert(self.keys@.map_values(|k: String| k@) =~= old_keys.map_values(|k: String| k@).push(
                        key@,
                    ));
                }
            },
        }
    }

    /// Drop the config of route `key`, if it has one.
    pub fn release(&mut self, key: &str)
        requires
            old(self).wf(),
        ensures
            final(self).wf(),
            final(self).configs() == old(self).configs().remove(key@),
    {
        match self.position(key) {
            None => {
                assert(self.configs@.remove(key@) =~= self.configs@);
            },
            Some(i) => {
                let ghost old_keys = self.keys@;
                self.configs.remove(key);
                self.keys.remove(i);
                proof {
                    assert forall|j: int, l: int| 0 <= j < l < self.keys@.len() implies (#[trigger] self.keys@[j])@
                        != (#[trigger] self.keys@[l])@ by {
                        let oj = if j < i { j } else { j + 1 };
                        let ol = if l < i { l } else { l + 1 };
                        assert(self.keys@[j] == old_keys[oj]);
                        assert(self.keys@[l] == old_keys[ol]);
                    }
                    assert forall|j: int| 0 <= j < self.keys@.len() implies self.configs@.contains_key(
                        (#[trigger] self.keys@[j])@,
                    ) by {
                        let oj = if j < i { j } else { j + 1 };
                        assert(self.keys@[j] == old_keys[oj]);
                        assert(old_keys[oj]@ != old_keys[i as int]@);
                    }
                    assert forall|k: Seq<char>| self.configs@.contains_key(k) implies exists|j: int|
                        0 <= j < self.keys@.len() && (#[trigger] self.keys@[j])@ == k by {
                        let oj = choose|oj: int| 0 <= oj < old_keys.len() && (#[trigger] old_keys[oj])@ == k;
                        assert(oj != i);
                        let j = if oj < i { oj } else { oj - 1 };
                        assert(self.keys@[j] == old_keys[oj]);
                    }
                }
            },
        }
    }

    /// The action space a predict on route `key` encodes its actions against
    /// (see [`prepare_outcome`]).
    pub fn action_space_of(&self, key: &str) -> (space: Result<&SpaceSpec, Error>)
        requires
            self.wf(),
        ensures
            match prepare_outcome(self.configs(), key@) {
                Ok(expected) => space matches Ok(s) && *s == expected,
                Err(message) => space matches Err(Error::Model(model)) && !model.is_recoverable
                    && model.message@ == message,
            },
    {
        proof {
            reveal_strlit("model env adapter was not resolved");
            reveal_strlit("model route contract missing action space");
        }
        match self.configs.get(key) {
            None => Err(Error::model(String::from_str("model env adapter was not resolved"))),
            Some(config) => match &config.env_contract.action_space {
                Some(space) => Ok(space),
                None => Err(Error::model(String::from_str("model route contract missing action space"))),
            },
        }
    }

    /// Tear down every route: the keys of the routes that were resolved, in
    /// the order they were first resolved, for their adapters to be released;
    /// no route stays resolved.
    pub fn close(&mut self) -> (released: Vec<String>)
        requires
            old(self).wf(),
        ensures
            final(self).wf(),
            final(self).configs() == Map::<Seq<char>, RouteConfig>::empty(),
            released@.map_values(|k: String| k@) == old(self).keys(),
            forall|key: Seq<char>| old(self).configs().contains_key(key) <==> #[trigger] old(self).keys().contains(key),
            distinct_keys(released@),
    {
        proof {
            assert forall|key: Seq<char>| old(self).configs().contains_key(key) <==> #[trigger] old(self).keys().contains(
                key,
            ) by {
                if old(self).configs().contains_key(key) {
                    let j = choose|j: int| 0 <= j < self.keys@.len() && (#[trigger] self.keys@[j])@ == key;
                    assert(old(self).keys()[j] == key);
                }
                if old(self).keys().contains(key) {
                    let j = choose|j: int| 0 <= j < old(self).keys().len() && old(self).keys()[j] == key;
                    assert(self.keys@[j]@ == key);
                }
            }
        }
        let mut released: Vec<String> = Vec::new();
        std::mem::swap(&mut released, &mut self.keys);
        self.configs.clear();
        released
    }
}

/// A route resolved with `config` serves exactly `config`'s action space to a
/// predict, until it is released.
pub proof fn resolved_route_serves_its_action_space(
    configs: Map<Seq<char>, RouteConfig>,
    key: Seq<char>,
    config: RouteConfig,
)
    ensures
        prepare_outcome(configs.insert(key, config), key) == match config.env_contract.action_space {
            Some(space) => Ok(space),
            None => Err(missing_route_action_space_text()),
        },
{
}

/// A released route is unresolved: a predict on it fails until it is
/// resolved again, and releasing it leaves every other route as it was.
pub proof fn released_route_is_unresolved(configs: Map<Seq<char>, RouteConfig>, key: Seq<char>, other: Seq<char>)
    ensures
        prepare_outcome(configs.remove(key), key) == Err::<SpaceSpec, Seq<char>>(unresolved_route_text()),
        other != key ==> prepare_outcome(configs.remove(key), other) == prepare_outcome(configs, other),
{
}

/// After a whole-session close no route is resolved: a predict on any route
/// fails as unresolved.
pub proof fn closed_session_has_no_routes(key: Seq<char>)
    ensures
        prepare_outcome(Map::<Seq<char>, RouteConfig>::empty(), key) == Err::<SpaceSpec, Seq<char>>(
            unresolved_route_text(),
        ),
{
}

} // verus!
