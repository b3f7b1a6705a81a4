//! What can be read from the state.
use vstd::prelude::*;

use crate::coordination::{CoordinationState, StoredSignal};
use crate::model;
use crate::model::{StateView, StoredSignalView};
use crate::ordered;
use crate::protocol::{
    ArtifactRef, AttentionItem, AttentionTarget, Direction, DirectionId, DirectionView, Participant,
    ParticipantId, ParticipantView, PublishedSignal, RequestLifecycle, ScopeSnapshot, Signal,
    WorkClaim, WorkClaimView, WorkId, WorkspaceLifecycle, WorkspaceSummary, WorkspaceSummaryView,
};
use crate::sequences;
use crate::sequences::Equal;
use crate::signals;
use crate::text;

verus! {

impl CoordinationState {
    /// The evidence of a request: what came before and what it names itself, ranked, without
    /// repeats.
    fn evidence(&self, scope: &str, stored: &StoredSignal, own: &Vec<ArtifactRef>) -> (r: Vec<
        ArtifactRef,
    >)
        ensures
            r.deep_view() == self@.evidence(scope@, stored@, own.deep_view()),
    {
        let ghost all = self.signals.deep_view();
        let ghost f = StateView::background(scope@, stored@);
        let mut evidence: Vec<ArtifactRef> = Vec::new();
        let mut i: usize = 0;
        assert(all.take(0) == Seq::<StoredSignalView>::empty());
        assert(evidence.deep_view() == all.take(0).flat_map(f));
        while i < self.signals.len()
            invariant
                i <= self.signals.len(),
                all == self.signals.deep_view(),
                f == StateView::background(scope@, stored@),
                evidence.deep_view() == all.take(i as int).flat_map(f),
            decreases self.signals.len() - i,
        {
            proof {
                all.lemma_flat_map_take_append(f, i as int);
            }
            let ghost before = evidence.deep_view();
            let candidate = &self.signals[i];
            assert(all[i as int] == candidate@);
            if text::same(candidate.scope.as_str(), scope) && candidate.sequence < stored.sequence
                && candidate.published.work_id.equals(&stored.published.work_id)
                && !signals::asks_attention(&candidate.published.signal) {
                if let Some(artifacts) = signals::signal_artifacts(&candidate.published.signal) {
                    let mut copies = artifacts.clone();
                    assert(copies.deep_view() =~= artifacts.deep_view());
                    let ghost added = copies.deep_view();
                    evidence.append(&mut copies);
                    assert(evidence.deep_view() == before + added);
                }
            }
            i = i + 1;
        }
        assert(all.take(i as int) == all);
        let ghost before = evidence.deep_view();
        let mut copies = own.clone();
        assert(copies.deep_view() =~= own.deep_view());
        evidence.append(&mut copies);
        assert(evidence.deep_view() == before + own.deep_view());
        sequences::dedup(sequences::sort(evidence))
    }

    /// The open request that a signal makes in a scope.
    fn attention_item(&self, scope: &str, stored: &StoredSignal) -> (r: Option<AttentionItem>)
        ensures
            r.deep_view() == self@.attention_item(scope@, stored@),
    {
        if !text::same(stored.scope.as_str(), scope) {
            return None;
        }
        let (category, request, own) = match signals::attention_signal(&stored.published.signal) {
            Some(attention) => attention,
            None => return None,
        };
        let identity = match stored.published.signal.request_identity() {
            Some(identity) => identity,
            None => return None,
        };
        if signals::validate_signal(&stored.published.signal).is_err() || self.attention_resolved(
            stored,
        ) {
            return None;
        }
        Some(
            AttentionItem {
                request_id: identity.request_id,
                request_key: identity.request_key.clone(),
                source_scope: scope.to_owned(),
                source_event_id: stored.event_id,
                work_id: stored.published.work_id,
                participant_id: stored.published.participant_id,
                category,
                created_at: stored.published.published_at,
                lifecycle: RequestLifecycle::Open,
                request,
                evidence: self.evidence(scope, stored, own),
                target: AttentionTarget { scope: scope.to_owned(), event_id: stored.event_id },
            },
        )
    }

    /// The open requests of a scope, in the order of the log.
    fn attention_for_scope(&self, scope: &str) -> (r: Vec<AttentionItem>)
        ensures
            r.deep_view() == self@.attention_for_scope(scope@),
    {
        let ghost all = self.signals.deep_view();
        let ghost f = self@.item_in(scope@);
        let mut items: Vec<AttentionItem> = Vec::new();
        let mut i: usize = 0;
        assert(all.take(0) == Seq::<StoredSignalView>::empty());
        assert(items.deep_view() == all.take(0).filter_map(f));
        while i < self.signals.len()
            invariant
                i <= self.signals.len(),
                all == self.signals.deep_view(),
                f == self@.item_in(scope@),
                items.deep_view() == all.take(i as int).filter_map(f),
            decreases self.signals.len() - i,
        {
            proof {
                all.lemma_filter_map_take_succ(f, i as int);
            }
            let ghost before = items.deep_view();
            assert(all[i as int] == self.signals@[i as int]@);
            if let Some(item) = self.attention_item(scope, &self.signals[i]) {
                let ghost view = item@;
                items.push(item);
                assert(items.deep_view() == before.push(view));
            }
            i = i + 1;
        }
        assert(all.take(i as int) == all);
        items
    }

    /// The open requests of all scopes: decisions, then blocked, then help, then ready for
    /// review; within a category older ones come first, then by scope and event.
    pub fn attention(&self) -> (r: Vec<AttentionItem>)
        ensures
            r.deep_view() == self@.attention(),
    {
        let ghost keys = ordered::listing::<String>(self.scopes@.dom());
        let ghost f = self@.items_by_scope();
        let mut items: Vec<AttentionItem> = Vec::new();
        let mut i: usize = 0;
        assert(keys.take(0) == Seq::<Seq<char>>::empty());
        assert(items.deep_view() == keys.take(0).flat_map(f));
        while i < self.scopes.len()
            invariant
                i <= keys.len(),
                keys == ordered::listing::<String>(self.scopes@.dom()),
                f == self@.items_by_scope(),
                items.deep_view() == keys.take(i as int).flat_map(f),
            decreases keys.len() - i,
        {
            proof {
                keys.lemma_flat_map_take_append(f, i as int);
            }
            let ghost before = items.deep_view();
            let mut found = self.attention_for_scope(self.scopes.key_at(i).as_str());
            let ghost added = found.deep_view();
            items.append(&mut found);
            assert(items.deep_view() == before + added);
            i = i + 1;
        }
        assert(keys.take(i as int) == keys);
        sequences::sort(items)
    }

    /// The participants of a scope, in the order of their identities.
    fn participants_in(&self, scope: &str) -> (r: Vec<Participant>)
        ensures
            r.deep_view() == ordered::in_order::<ParticipantId, ParticipantView>(
                self@.participants,
            ).filter(model::participant_in(scope@)),
    {
        let ghost all = ordered::in_order::<ParticipantId, ParticipantView>(self.participants@);
        let ghost p = model::participant_in(scope@);
        let mut found: Vec<Participant> = Vec::new();
        let mut i: usize = 0;
        proof {
            reveal(Seq::filter);
            assert(all.take(0) == Seq::<ParticipantView>::empty());
            assert(found.deep_view() == all.take(0).filter(p));
        }
        while i < self.participants.len()
            invariant
                i <= all.len(),
                all == ordered::in_order::<ParticipantId, ParticipantView>(self.participants@),
                p == model::participant_in(scope@),
                found.deep_view() == all.take(i as int).filter(p),
            decreases all.len() - i,
        {
            proof {
                sequences::lemma_filter_take(all, p, i as int);
            }
            let ghost before = found.deep_view();
            let participant = self.participants.value_at(i);
            if text::same(participant.scope.as_str(), scope) {
                found.push(participant.clone());
                assert(found.deep_view() == before.push(participant@));
            }
            i = i + 1;
        }
        assert(all.take(i as int) == all);
        found
    }

    /// The claims of a scope, in the order of their identities.
    fn work_in(&self, scope: &str) -> (r: Vec<WorkClaim>)
        ensures
            r.deep_view() == ordered::in_order::<WorkId, WorkClaimView>(self@.work).filter(
                model::work_in(scope@),
            ),
    {
        let ghost all = ordered::in_order::<WorkId, WorkClaimView>(self.work@);
        let ghost p = model::work_in(scope@);
        let mut found: Vec<WorkClaim> = Vec::new();
        let mut i: usize = 0;
        proof {
            reveal(Seq::filter);
            assert(all.take(0) == Seq::<WorkClaimView>::empty());
            assert(found.deep_view() == all.take(0).filter(p));
        }
        while i < self.work.len()
            invariant
                i <= all.len(),
                all == ordered::in_order::<WorkId, WorkClaimView>(self.work@),
                p == model::work_in(scope@),
                found.deep_view() == all.take(i as int).filter(p),
            decreases all.len() - i,
        {
            proof {
                sequences::lemma_filter_take(all, p, i as int);
            }
            let ghost before = found.deep_view();
            let work = self.work.value_at(i);
            if text::same(work.scope.as_str(), scope) {
                found.push(work.clone());
                assert(found.deep_view() == before.push(work@));
            }
            i = i + 1;
        }
        assert(all.take(i as int) == all);
        found
    }

    /// The signals of a scope, in the order of the log.
    fn signals_in(&self, scope: &str) -> (r: Vec<PublishedSignal>)
        ensures
            r.deep_view() == self@.signals.filter_map(model::signal_in(scope@)),
    {
        let ghost all = self.signals.deep_view();
        let ghost f = model::signal_in(scope@);
        let mut found: Vec<PublishedSignal> = Vec::new();
        let mut i: usize = 0;
        assert(all.take(0) == Seq::<StoredSignalView>::empty());
        assert(found.deep_view() == all.take(0).filter_map(f));
        while i < self.signals.len()
            invariant
                i <= self.signals.len(),
                all == self.signals.deep_view(),
                f == model::signal_in(scope@),
                found.deep_view() == all.take(i as int).filter_map(f),
            decreases self.signals.len() - i,
        {
            proof {
                all.lemma_filter_map_take_succ(f, i as int);
            }
            let ghost before = found.deep_view();
            let stored = &self.signals[i];
            assert(all[i as int] == stored@);
            if text::same(stored.scope.as_str(), scope) {
                found.push(stored.published.clone());
                assert(found.deep_view() == before.push(stored.published@));
            }
            i = i + 1;
        }
        assert(all.take(i as int) == all);
        found
    }

    /// All that is known of a scope.
    pub fn snapshot(&self, scope: &str) -> (r: ScopeSnapshot)
        ensures
            r@ == self@.snapshot(scope@),
    {
        let key = scope.to_owned();
        let last_sequence: u64 = match self.scope_sequences.get(&key) {
            Some(sequence) => *sequence,
            None => 0,
        };
        ScopeSnapshot {
            scope: scope.to_owned(),
            workspace: match self.workspaces.get(&key) {
                Some(workspace) => Some(workspace.clone()),
                None => None,
            },
            participants: self.participants_in(scope),
            active_work: self.work_in(scope),
            signals: self.signals_in(scope),
            attention: self.attention_for_scope(scope),
            metrics: self.metrics_in(&key),
            last_sequence,
        }
    }

    /// A workspace in a line.
    fn summary(&self, scope: &str) -> (r: WorkspaceSummary)
        ensures
            r@ == self@.summary(scope@),
    {
        let snapshot = self.snapshot(scope);
        WorkspaceSummary {
            scope: scope.to_owned(),
            title: match &snapshot.workspace {
                Some(workspace) => Some(workspace.title.clone()),
                None => None,
            },
            lifecycle: workspace_lifecycle(&snapshot),
            active_participants: snapshot.participants.len(),
            active_work: snapshot.active_work.len(),
            last_sequence: snapshot.last_sequence,
        }
    }

    /// The workspaces, the one with the latest activity first.
    pub fn workspaces(&self) -> (r: Vec<WorkspaceSummary>)
        ensures
            r.deep_view() == self@.workspace_summaries(),
    {
        let ghost keys = ordered::listing::<String>(self.scopes@.dom());
        let ghost f = self@.active_summary();
        let mut entries: Vec<(Option<u64>, WorkspaceSummary)> = Vec::new();
        let mut i: usize = 0;
        while i < self.scopes.len()
            invariant
                i <= keys.len(),
                keys == ordered::listing::<String>(self.scopes@.dom()),
                f == self@.active_summary(),
                entries.deep_view() == keys.take(i as int).map_values(f),
            decreases keys.len() - i,
        {
            let ghost before = entries.deep_view();
            let scope = self.scopes.key_at(i);
            let activity: Option<u64> = match self.activity.get(scope) {
                Some(sequence) => Some(*sequence),
                None => None,
            };
            let entry = (activity, self.summary(scope.as_str()));
            let ghost view = entry.deep_view();
            entries.push(entry);
            assert(view == f(keys[i as int]));
            assert(entries.deep_view() == before.push(view));
            assert(keys.take(i + 1).map_values(f) == keys.take(i as int).map_values(f).push(
                f(keys[i as int]),
            ));
            i = i + 1;
        }
        assert(keys.take(i as int) == keys);
        let ranked = sequences::sort(entries);
        let ghost all = ranked.deep_view();
        let mut summaries: Vec<WorkspaceSummary> = Vec::new();
        for entry in it: ranked
            invariant
                it.seq() == ranked@,
                all == ranked.deep_view(),
                summaries.deep_view() == all.take(it.index()).map_values(
                    |entry: (Option<u64>, WorkspaceSummaryView)| entry.1,
                ),
        {
            let ghost before = summaries.deep_view();
            let ghost view = entry.1@;
            summaries.push(entry.1);
            assert(summaries.deep_view() == before.push(view));
            assert(all[it.index()].1 == view);
        }
        assert(all.take(all.len() as int) == all);
        summaries
    }

    /// The directions that a present participant has received and not consumed.
    pub fn directions_for(&self, participant_id: ParticipantId) -> (r: Vec<Direction>)
        ensures
            r.deep_view() == self@.directions_for(participant_id),
    {
        let mut found: Vec<Direction> = Vec::new();
        if !self.participants.contains(&participant_id) {
            assert(found.deep_view() == Seq::<DirectionView>::empty());
            return found;
        }
        let ghost all = ordered::in_order::<DirectionId, DirectionView>(self.directions@);
        let ghost p = model::pending_for(participant_id);
        let mut i: usize = 0;
        proof {
            reveal(Seq::filter);
            assert(all.take(0) == Seq::<DirectionView>::empty());
            assert(found.deep_view() == all.take(0).filter(p));
        }
        while i < self.directions.len()
            invariant
                i <= all.len(),
                all == ordered::in_order::<DirectionId, DirectionView>(self.directions@),
                p == model::pending_for(participant_id),
                found.deep_view() == all.take(i as int).filter(p),
            decreases all.len() - i,
        {
            proof {
                sequences::lemma_filter_take(all, p, i as int);
            }
            let ghost before = found.deep_view();
            let direction = self.directions.value_at(i);
            if delivery_pending(direction, participant_id) {
                found.push(direction.clone());
                assert(found.deep_view() == before.push(direction@));
            }
            i = i + 1;
        }
        assert(all.take(i as int) == all);
        found
    }
}

/// Whether a direction has been delivered to a participant and not consumed.
fn delivery_pending(direction: &Direction, participant_id: ParticipantId) -> (r: bool)
    ensures
        r == model::is_pending(direction@, participant_id),
{
    let mut i: usize = 0;
    while i < direction.deliveries.len()
        invariant
            i <= direction.deliveries.len(),
            forall|j: int|
                0 <= j < i ==> !((#[trigger] direction@.deliveries[j]).participant_id
                    == participant_id && direction@.deliveries[j].consumed_at is None),
        decreases direction.deliveries.len() - i,
    {
        let delivery = &direction.deliveries[i];
        assert(direction@.deliveries[i as int] == *delivery);
        if delivery.participant_id == participant_id && delivery.consumed_at.is_none() {
            return true;
        }
        i = i + 1;
    }
    false
}

/// The state of a workspace.
fn workspace_lifecycle(snapshot: &ScopeSnapshot) -> (r: WorkspaceLifecycle)
    ensures
        r == model::lifecycle_of(snapshot@),
{
    let count: usize = snapshot.signals.len();
    if snapshot.participants.len() > 0 || snapshot.active_work.len() > 0 {
        return WorkspaceLifecycle::Active;
    }
    if count > 0 {
        assert(snapshot@.signals[count - 1] == snapshot.signals@[count - 1]@);
        if let Signal::Done { .. } = &snapshot.signals[count - 1].signal {
            return WorkspaceLifecycle::Completed;
        }
    }
    WorkspaceLifecycle::Idle
}

} // verus!
