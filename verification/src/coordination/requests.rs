//! Requests for attention: which of them are still open.
use vstd::prelude::*;

use crate::coordination::{CoordinationState, StoredSignal};
use crate::model;
use crate::ordered;
use crate::protocol::{DirectionId, DirectionTarget, DirectionView, RequestId, RequestIdentity};
use crate::sequences::Equal;
use crate::text;

verus! {

impl StoredSignal {
    /// Whether this signal's request takes the place of the other's.
    pub(crate) fn supersedes(&self, other: &StoredSignal) -> (r: bool)
        ensures
            r == self@.supersedes(other@),
    {
        match (self.published.signal.request_identity(), other.published.signal.request_identity()) {
            (Some(mine), Some(theirs)) => {
                let named: bool = match mine.supersedes_request_id {
                    Some(request_id) => request_id == theirs.request_id,
                    None => false,
                };
                text::same(self.scope.as_str(), other.scope.as_str()) && self.sequence
                    > other.sequence && self.published.participant_id
                    == other.published.participant_id && self.published.work_id.equals(
                    &other.published.work_id,
                ) && (text::same(mine.request_key.as_str(), theirs.request_key.as_str()) || named)
            },
            _ => false,
        }
    }

    /// Whether the signal makes the request of a given identity.
    pub(crate) fn makes(&self, request_id: RequestId) -> (r: bool)
        ensures
            r == self@.makes(request_id),
    {
        match self.published.signal.request_identity() {
            Some(identity) => identity.request_id == request_id,
            None => false,
        }
    }

    /// Whether a direction with this target answers the signal's request.
    pub(crate) fn answered_by(&self, target: &Option<DirectionTarget>) -> (r: bool)
        ensures
            r == self@.answered_by(target.deep_view()),
    {
        match target {
            None => false,
            Some(t) => match t.request_id {
                Some(request_id) => self.makes(request_id),
                None => t.source_event_id == self.event_id && t.participant_id
                    == self.published.participant_id && t.work_id.equals(&self.published.work_id),
            },
        }
    }

    /// Whether a target names the signal's request in a scope.
    pub(crate) fn named_by(&self, scope: &str, target: &DirectionTarget) -> (r: bool)
        ensures
            r == model::names(scope@, *target, self@),
    {
        match target.request_id {
            Some(request_id) => text::same(self.scope.as_str(), scope) && self.event_id
                == target.source_event_id && self.published.participant_id == target.participant_id
                && self.published.work_id.equals(&target.work_id) && self.makes(request_id),
            None => false,
        }
    }
}

/// The identity of the request that a stored signal makes.
pub fn stored_request_identity(stored: &StoredSignal) -> (r: Option<RequestIdentity>)
    ensures
        r.deep_view() == stored@.identity(),
{
    match stored.published.signal.request_identity() {
        Some(identity) => Some(identity.clone()),
        None => None,
    }
}

impl CoordinationState {
    /// Whether a later request has taken the place of the signal's.
    pub(crate) fn request_superseded(&self, source: &StoredSignal) -> (r: bool)
        ensures
            r == self@.superseded(source@),
    {
        let ghost all = self.signals.deep_view();
        let mut i: usize = 0;
        while i < self.signals.len()
            invariant
                i <= self.signals.len(),
                all == self.signals.deep_view(),
                all == self@.signals,
                forall|j: int| 0 <= j < i ==> !(#[trigger] all[j]).supersedes(source@),
            decreases self.signals.len() - i,
        {
            if self.signals[i].supersedes(source) {
                assert(all[i as int].supersedes(source@));
                return true;
            }
            i = i + 1;
        }
        false
    }

    /// Whether some direction answers the signal's request.
    pub(crate) fn request_answered(&self, source: &StoredSignal) -> (r: bool)
        ensures
            r == self@.answered(source@),
    {
        let ghost keys = ordered::listing::<DirectionId>(self.directions@.dom());
        let ghost all = ordered::in_order::<DirectionId, DirectionView>(self.directions@);
        let count: usize = self.directions.len();
        let mut i: usize = 0;
        while i < count
            invariant
                i <= count,
                count == all.len(),
                count == keys.len(),
                keys == ordered::listing::<DirectionId>(self.directions@.dom()),
                all == ordered::in_order::<DirectionId, DirectionView>(self.directions@),
                keys.to_set() == self.directions@.dom(),
                forall|j: int|
                    0 <= j < i ==> !source@.answered_by((#[trigger] all[j]).target),
            decreases count - i,
        {
            if source.answered_by(&self.directions.value_at(i).target) {
                proof {
                    assert(keys.to_set().contains(keys[i as int]));
                    assert(self@.directions[keys[i as int]] == all[i as int]);
                }
                return true;
            }
            i = i + 1;
        }
        proof {
            assert forall|id: DirectionId|
                self@.directions.contains_key(id) implies !source@.answered_by(
                (#[trigger] self@.directions[id]).target,
            ) by {
                assert(keys.to_set().contains(id));
                let k = keys.index_of(id);
                assert(all[k] == self@.directions[id]);
            }
        }
        false
    }

    /// Whether the signal makes no request that is still open.
    pub(crate) fn attention_resolved(&self, source: &StoredSignal) -> (r: bool)
        ensures
            r == self@.settled(source@),
    {
        match source.published.signal.request_identity() {
            None => true,
            Some(identity) => self.resolved_requests.contains(&identity.request_id)
                || self.request_answered(source) || self.request_superseded(source),
        }
    }

    /// Whether a target names an open request of a scope.
    pub(crate) fn names_open_request(&self, scope: &str, target: &DirectionTarget) -> (r: bool)
        ensures
            r == self@.names_open_request(scope@, *target),
    {
        let ghost all = self.signals.deep_view();
        let mut i: usize = 0;
        while i < self.signals.len()
            invariant
                i <= self.signals.len(),
                all == self.signals.deep_view(),
                all == self@.signals,
                forall|j: int|
                    0 <= j < i ==> !(model::names(scope@, *target, #[trigger] all[j])
                        && !self@.settled(all[j])),
            decreases self.signals.len() - i,
        {
            assert(all[i as int] == self.signals@[i as int]@);
            if self.signals[i].named_by(scope, target) && !self.attention_resolved(
                &self.signals[i],
            ) {
                return true;
            }
            i = i + 1;
        }
        false
    }
}

} // verus!
