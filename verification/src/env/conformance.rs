//! Serving-side value conformance: which validation policy a server runs
//! under, what a policy outcome does to a request, which range deviations are
//! reported (once per kind and path per session), and where the reports land
//! in a reply's info map.
//!
//! Whether a value conforms to its space is decided by the space system; the
//! outcome of that check is an input here.

use vstd::prelude::*;

use crate::env::wire::{WireEnvError, WireErrorCode};
use crate::spaces::{MetaMap, MetaValue, MetaView};
use crate::text::{same_text, trim, trimmed};

verus! {

/// How strictly served values are held to their spaces.
#[derive(Debug, Clone, Copy, PartialEq, Eq, Structural)]
pub enum ValidationPolicy {
    /// Any deviation rejects the request.
    Strict,
    /// Range deviations are reported and the request proceeds.
    Warn,
    /// Values are not checked.
    Off,
}

/// The code point of `c` with ASCII upper-case letters lowered.
pub open spec fn folded(c: char) -> int {
    let u = c as int;
    if 65 <= u && u <= 90 {
        u + 32
    } else {
        u
    }
}

/// Whether `s` equals the lower-case `target` once ASCII letters are lowered.
pub open spec fn folds_to(s: Seq<char>, target: Seq<char>) -> bool {
    s.len() == target.len() && forall|i: int| 0 <= i < s.len() ==> folded(#[trigger] s[i]) == target[i] as int
}

/// The policy a setting selects: `strict` or `off`, ignoring surrounding
/// whitespace and ASCII case; anything else, or no setting, is `warn`.
pub open spec fn spec_policy(setting: Option<Seq<char>>) -> ValidationPolicy {
    match setting {
        Some(raw) => if folds_to(trimmed(raw), "strict"@) {
            ValidationPolicy::Strict
        } else if folds_to(trimmed(raw), "off"@) {
            ValidationPolicy::Off
        } else {
            ValidationPolicy::Warn
        },
        None => ValidationPolicy::Warn,
    }
}

fn folds_to_text(s: &str, target: &str) -> (same: bool)
    ensures
        same == folds_to(s@, target@),
{
    let n = s.unicode_len();
    if n != target.unicode_len() {
        return false;
    }
    let mut i: usize = 0;
    while i < n
        invariant
            n == s@.len(),
            n == target@.len(),
            i <= n,
            forall|j: int| 0 <= j < i ==> folded(#[trigger] s@[j]) == target@[j] as int,
        decreases n - i,
    {
        let c = s.get_char(i);
        let t = target.get_char(i);
        let u = c as u32;
        let lowered = if 65 <= u && u <= 90 {
            u + 32
        } else {
            u
        };
        if lowered != t as u32 {
            return false;
        }
        i = i + 1;
    }
    true
}

/// The policy a server runs under, from its setting (see [`spec_policy`]).
pub fn parse_validation_policy(setting: Option<&str>) -> (policy: ValidationPolicy)
    ensures
        policy == spec_policy(
            match setting {
                Some(raw) => Some(raw@),
                None => None,
            },
        ),
{
    proof {
        reveal_strlit("strict");
        reveal_strlit("off");
    }
    match setting {
        None => ValidationPolicy::Warn,
        Some(raw) => {
            let value = trim(raw);
            if folds_to_text(value.as_str(), "strict") {
                ValidationPolicy::Strict
            } else if folds_to_text(value.as_str(), "off") {
                ValidationPolicy::Off
            } else {
                ValidationPolicy::Warn
            }
        },
    }
}

/// The outcome of checking one value against its space under the policy.
#[derive(Debug, Clone, PartialEq, Eq)]
pub enum PolicyOutcome {
    /// The value conforms (or is not checked).
    Accept,
    /// The value deviates in a way that rejects the request: the deviation's
    /// text.
    Reject(String),
    /// The value deviates in range only: where, and the deviation's text.
    Warn {
        /// The path of the deviating element.
        path: String,
        /// The deviation's text.
        detail: String,
    },
}

/// One value-conformance report.
#[derive(Debug, Clone, PartialEq, Eq)]
pub struct ConformanceWarning {
    /// What was checked: `observation` or `action`.
    pub kind: String,
    /// The path of the deviating element.
    pub path: String,
    /// The deviation's text.
    pub detail: String,
}

/// A report as its three texts: kind, path, detail.
pub open spec fn warning_view(warning: ConformanceWarning) -> (Seq<char>, Seq<char>, Seq<char>) {
    (warning.kind@, warning.path@, warning.detail@)
}

/// The reports of a list, as texts.
pub open spec fn warning_views(warnings: Seq<ConformanceWarning>) -> Seq<(Seq<char>, Seq<char>, Seq<char>)> {
    warnings.map_values(|w: ConformanceWarning| warning_view(w))
}

/// What one outcome does to the reported `(kind, path)` pairs and the
/// reports gathered so far: a range deviation at a pair not yet reported is
/// reported and remembered; anything else changes nothing.
pub open spec fn warn_step(
    state: (Set<(Seq<char>, Seq<char>)>, Seq<(Seq<char>, Seq<char>, Seq<char>)>),
    outcome: PolicyOutcome,
    kind: Seq<char>,
) -> (Set<(Seq<char>, Seq<char>)>, Seq<(Seq<char>, Seq<char>, Seq<char>)>) {
    match outcome {
        PolicyOutcome::Warn { path, detail } => if state.0.contains((kind, path@)) {
            state
        } else {
            (state.0.insert((kind, path@)), state.1.push((kind, path@, detail@)))
        },
        _ => state,
    }
}

/// [`warn_step`] over a run of outcomes, in order.
pub open spec fn warn_fold(
    state: (Set<(Seq<char>, Seq<char>)>, Seq<(Seq<char>, Seq<char>, Seq<char>)>),
    outcomes: Seq<PolicyOutcome>,
    kind: Seq<char>,
) -> (Set<(Seq<char>, Seq<char>)>, Seq<(Seq<char>, Seq<char>, Seq<char>)>)
    decreases outcomes.len(),
{
    if outcomes.len() == 0 {
        state
    } else {
        warn_step(warn_fold(state, outcomes.drop_last(), kind), outcomes.last(), kind)
    }
}

/// The position of the first rejecting outcome, or the number of outcomes
/// when none rejects.
pub open spec fn first_reject(outcomes: Seq<PolicyOutcome>) -> int
    decreases outcomes.len(),
{
    if outcomes.len() == 0 {
        0
    } else if outcomes[0] is Reject {
        0
    } else {
        1 + first_reject(outcomes.drop_first())
    }
}

/// The code of a rejected value: a bad action is the client's fault, a bad
/// observation the env's.
pub open spec fn reject_code(kind: Seq<char>) -> WireErrorCode {
    if kind == "action"@ {
        WireErrorCode::InvalidAction
    } else {
        WireErrorCode::Internal
    }
}

/// The `(kind, path)` pairs a session has already reported.
pub struct WarnedPaths {
    seen: Vec<(String, String)>,
}

impl WarnedPaths {
    /// The reported pairs.
    pub closed spec fn pairs(&self) -> Set<(Seq<char>, Seq<char>)> {
        Set::new(|p: (Seq<char>, Seq<char>)| exists|i: int| 0 <= i < self.seen@.len() && (#[trigger] self.seen@[i]).0@ == p.0 && self.seen@[i].1@ == p.1)
    }

    /// Nothing reported yet.
    pub fn new() -> (warned: Self)
        ensures
            warned.pairs() == Set::<(Seq<char>, Seq<char>)>::empty(),
    {
        let warned = WarnedPaths { seen: Vec::new() };
        assert(warned.pairs() =~= Set::<(Seq<char>, Seq<char>)>::empty());
        warned
    }

    fn contains(&self, kind: &str, path: &str) -> (found: bool)
        ensures
            found == self.pairs().contains((kind@, path@)),
    {
        let mut i: usize = 0;
        while i < self.seen.len()
            invariant
                i <= self.seen@.len(),
                forall|j: int| 0 <= j < i ==> !((#[trigger] self.seen@[j]).0@ == kind@ && self.seen@[j].1@ == path@),
            decreases self.seen@.len() - i,
        {
            if same_text(self.seen[i].0.as_str(), kind) && same_text(self.seen[i].1.as_str(), path) {
                assert(self.pairs().contains((kind@, path@)));
                return true;
            }
            i = i + 1;
        }
        false
    }

    /// Apply one check's outcome: a rejection fails the request (see
    /// [`reject_code`]) with the deviation's text; a range deviation is
    /// reported once per `(kind, path)` (see [`warn_step`]); a conforming
    /// value passes.
    pub fn enforce(&mut self, outcome: PolicyOutcome, kind: &str, warnings: &mut Vec<ConformanceWarning>) -> (checked:
        Result<(), WireEnvError>)
        ensures
            (final(self).pairs(), warning_views(final(warnings)@)) == warn_step(
                (old(self).pairs(), warning_views(old(warnings)@)),
                outcome,
                kind@,
            ),
            match outcome {
                PolicyOutcome::Reject(message) => checked matches Err(error) && error.code == reject_code(kind@)
                    && error.message == message,
                _ => checked is Ok,
            },
    {
        proof {
            reveal_strlit("action");
        }
        match outcome {
            PolicyOutcome::Accept => Ok(()),
            PolicyOutcome::Reject(message) => {
                let code = if same_text(kind, "action") {
                    WireErrorCode::InvalidAction
                } else {
                    WireErrorCode::Internal
                };
                Err(WireEnvError::new(code, message))
            },
            PolicyOutcome::Warn { path, detail } => {
                if !self.contains(kind, path.as_str()) {
                    let ghost old_pairs = self.pairs();
                    let ghost old_warnings = warnings@;
                    let ghost key = (kind@, path@);
                    let ghost entry = (kind@, path@, detail@);
                    self.seen.push((String::from_str(kind), path.clone()));
                    warnings.push(ConformanceWarning { kind: String::from_str(kind), path, detail });
                    proof {
                        assert(self.pairs() =~= old_pairs.insert(key)) by {
                            assert forall|p: (Seq<char>, Seq<char>)| #[trigger] self.pairs().contains(p) == old_pairs.insert(key).contains(p) by {
                                if old_pairs.contains(p) {
                                    let i = choose|i: int| 0 <= i < old(self).seen@.len() && (#[trigger] old(self).seen@[i]).0@ == p.0 && old(self).seen@[i].1@ == p.1;
                                    assert(self.seen@[i] == old(self).seen@[i]);
                                }
                                if p == key {
                                    assert(self.seen@[old(self).seen@.len() as int].0@ == p.0);
                                }
                                if self.pairs().contains(p) {
                                    let i = choose|i: int| 0 <= i < self.seen@.len() && (#[trigger] self.seen@[i]).0@ == p.0 && self.seen@[i].1@ == p.1;
                                    if i < old(self).seen@.len() {
                                        assert(self.seen@[i] == old(self).seen@[i]);
                                    }
                                }
                            }
                        }
                        assert(warning_views(warnings@) =~= warning_views(old_warnings).push(entry));
                    }
                }
                Ok(())
            },
        }
    }

    /// Apply the outcomes of checking a run of values, in order, stopping at
    /// the first rejection (see [`first_reject`], [`warn_fold`]).
    pub fn enforce_all(&mut self, outcomes: Vec<PolicyOutcome>, kind: &str, warnings: &mut Vec<ConformanceWarning>) -> (checked:
        Result<(), WireEnvError>)
        ensures
            (final(self).pairs(), warning_views(final(warnings)@)) == warn_fold(
                (old(self).pairs(), warning_views(old(warnings)@)),
                outcomes@.take(first_reject(outcomes@)),
                kind@,
            ),
            first_reject(outcomes@) == outcomes@.len() ==> checked is Ok,
            first_reject(outcomes@) < outcomes@.len() ==> (checked matches Err(error) && error.code == reject_code(
                kind@,
            ) && outcomes@[first_reject(outcomes@)] == PolicyOutcome::Reject(error.message)),
    {
        let ghost all = outcomes@;
        let ghost start = (self.pairs(), warning_views(warnings@));
        proof {
            lemma_first_reject_bounds(all);
        }
        let total = outcomes.len();
        let mut rest = outcomes;
        let mut k: usize = 0;
        while rest.len() > 0
            invariant
                all == outcomes@,
                start == (old(self).pairs(), warning_views(old(warnings)@)),
                total == all.len(),
                k + rest@.len() == all.len(),
                rest@ == all.skip(k as int),
                k <= first_reject(all),
                first_reject(all) <= all.len(),
                forall|j: int| 0 <= j < k ==> !(#[trigger] all[j] is Reject),
                (self.pairs(), warning_views(warnings@)) == warn_fold(start, all.take(k as int), kind@),
            decreases rest@.len(),
        {
            let outcome = rest.remove(0);
            assert(outcome == all[k as int]);
            let ghost before = (self.pairs(), warning_views(warnings@));
            let result = self.enforce(outcome, kind, warnings);
            proof {
                assert(all.take(k + 1).drop_last() =~= all.take(k as int));
                assert(all.take(k + 1).last() == all[k as int]);
            }
            match result {
                Err(error) => {
                    proof {
                        assert(all[k as int] is Reject);
                        lemma_first_reject_at(all, k as int);
                    }
                    return Err(error);
                },
                Ok(()) => {
                    proof {
                        lemma_first_reject_past(all, k as int);
                    }
                },
            }
            k = k + 1;
            assert(rest@ =~= all.skip(k as int));
        }
        proof {
            assert(all.take(k as int) =~= all);
        }
        Ok(())
    }
}

proof fn lemma_first_reject_bounds(outcomes: Seq<PolicyOutcome>)
    ensures
        0 <= first_reject(outcomes) <= outcomes.len(),
        first_reject(outcomes) < outcomes.len() ==> outcomes[first_reject(outcomes)] is Reject,
        forall|j: int| 0 <= j < first_reject(outcomes) ==> !(#[trigger] outcomes[j] is Reject),
    decreases outcomes.len(),
{
    if outcomes.len() > 0 && !(outcomes[0] is Reject) {
        lemma_first_reject_bounds(outcomes.drop_first());
        assert forall|j: int| 0 <= j < first_reject(outcomes) implies !(#[trigger] outcomes[j] is Reject) by {
            if j > 0 {
                assert(outcomes[j] == outcomes.drop_first()[j - 1]);
            }
        }
    }
}

proof fn lemma_first_reject_at(outcomes: Seq<PolicyOutcome>, k: int)
    requires
        0 <= k < outcomes.len(),
        outcomes[k] is Reject,
        forall|j: int| 0 <= j < k ==> !(#[trigger] outcomes[j] is Reject),
    ensures
        first_reject(outcomes) == k,
    decreases k,
{
    if k > 0 {
        assert forall|j: int| 0 <= j < k - 1 implies !(#[trigger] outcomes.drop_first()[j] is Reject) by {
            assert(outcomes.drop_first()[j] == outcomes[j + 1]);
        }
        assert(!(outcomes[0] is Reject));
        lemma_first_reject_at(outcomes.drop_first(), k - 1);
    }
}

proof fn lemma_first_reject_past(outcomes: Seq<PolicyOutcome>, k: int)
    requires
        0 <= k < outcomes.len(),
        k <= first_reject(outcomes),
        !(outcomes[k] is Reject),
    ensures
        k + 1 <= first_reject(outcomes),
{
    lemma_first_reject_bounds(outcomes);
    if first_reject(outcomes) == k {
        assert(outcomes[first_reject(outcomes)] is Reject);
    }
}

/// The info-map value of one report: a map of its kind, path and detail.
pub open spec fn warning_entry(w: (Seq<char>, Seq<char>, Seq<char>)) -> MetaView {
    MetaView::Dict(seq![("detail"@, MetaView::Text(w.2)), ("kind"@, MetaView::Text(w.0)), ("path"@, MetaView::Text(w.1))])
}

/// Merge a reply's conformance reports into its info map under `key` (the
/// session edition's reserved key): no reports leave the info as it was;
/// otherwise the key holds one map per report, in order, every other key
/// keeps its value, and an absent info becomes a map.
pub fn inject_conformance_warnings(key: &str, info: &mut Option<MetaMap>, warnings: Vec<ConformanceWarning>)
    ensures
        warnings@.len() == 0 ==> *final(info) == *old(info),
        warnings@.len() > 0 ==> (*final(info) matches Some(map) && map.lookup(key@) == Some(
            MetaView::List(warning_views(warnings@).map_values(|w: (Seq<char>, Seq<char>, Seq<char>)| warning_entry(w))),
        ) && (forall|other: Seq<char>|
            other != key@ ==> #[trigger] map.lookup(other) == match *old(info) {
                Some(previous) => previous.lookup(other),
                None => None,
            }) && (match *old(info) {
            Some(previous) => previous.wf(),
            None => true,
        } ==> map.wf())),
{
    if warnings.len() == 0 {
        return;
    }
    let ghost views = warning_views(warnings@);
    let mut entries: Vec<MetaValue> = Vec::new();
    let mut i: usize = 0;
    while i < warnings.len()
        invariant
            i <= warnings@.len(),
            views == warning_views(warnings@),
            entries@.len() == i,
            forall|j: int| 0 <= j < i ==> (#[trigger] entries@[j]).deep() == warning_entry(views[j]),
        decreases warnings@.len() - i,
    {
        let warning = &warnings[i];
        let mut fields: Vec<(String, MetaValue)> = Vec::new();
        fields.push((String::from_str("detail"), MetaValue::String(warning.detail.clone())));
        fields.push((String::from_str("kind"), MetaValue::String(warning.kind.clone())));
        fields.push((String::from_str("path"), MetaValue::String(warning.path.clone())));
        let report = MetaMap { entries: fields };
        proof {
            assert(views[i as int] == warning_view(warnings@[i as int]));
            assert(report.deep_entries() =~= seq![
                ("detail"@, MetaView::Text(views[i as int].2)),
                ("kind"@, MetaView::Text(views[i as int].0)),
                ("path"@, MetaView::Text(views[i as int].1)),
            ]);
        }
        entries.push(MetaValue::Dict(report));
        i = i + 1;
    }
    let list = MetaValue::List(entries);
    proof {
        assert(list.deep()->List_0 =~= views.map_values(|w: (Seq<char>, Seq<char>, Seq<char>)| warning_entry(w)));
    }
    match info {
        Some(map) => {
            map.insert(String::from_str(key), list);
        },
        None => {
            let mut map = MetaMap::new();
            map.insert(String::from_str(key), list);
            *info = Some(map);
        },
    }
}

} // verus!
