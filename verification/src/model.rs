//! The state of coordination as a mathematical object: what each event makes of it, what each
//! command leads to, and what can be read from it.
use vstd::prelude::*;

use crate::coordination::{DecisionContext, DecisionView, PendingEventView};
use crate::ordered;
use crate::protocol::{
    ArtifactRef, ArtifactRefView, AttentionItem, AttentionItemView, AttentionTargetView,
    CommandView, ConflictView, CoordinationMetrics, DirectionDelivery, DirectionId, DirectionTarget,
    DirectionView, EnvironmentManifestView, EventEnvelopeView, EventKindView, LeaveReason,
    ParticipantId, ParticipantView, PublishedSignalView, ReleaseReason, RequestId,
    RequestIdentityView, RequestLifecycle, ScopeSnapshotView, SignalView, WorkClaimView, WorkId,
    WorkspaceLifecycle, WorkspaceSummary, WorkspaceSummaryView, WorkspaceView,
};
use crate::resources;
use crate::sequences;
use crate::signals;
use crate::text;
use crate::time::Timestamp;

verus! {

/// A published signal with its place in the log.
#[verifier::ext_equal]
pub struct StoredSignalView {
    pub scope: Seq<char>,
    pub event_id: u128,
    pub sequence: u64,
    pub published: PublishedSignalView,
}

impl StoredSignalView {
    /// The identity of the request that the signal makes.
    pub open spec fn identity(self) -> Option<RequestIdentityView> {
        self.published.signal.request_identity()
    }

    /// Whether the signal makes the request of a given identity.
    pub open spec fn makes(self, request_id: RequestId) -> bool {
        self.identity() is Some && self.identity()->0.request_id == request_id
    }

    /// Whether this signal's request takes the place of the other's: it comes later, from the same
    /// sender on the same work, and bears the same key or names the other.
    pub open spec fn supersedes(self, other: StoredSignalView) -> bool {
        &&& self.identity() is Some
        &&& other.identity() is Some
        &&& self.scope == other.scope
        &&& self.sequence > other.sequence
        &&& self.published.participant_id == other.published.participant_id
        &&& self.published.work_id == other.published.work_id
        &&& self.identity()->0.request_key == other.identity()->0.request_key
            || self.identity()->0.supersedes_request_id == Some(other.identity()->0.request_id)
    }

    /// Whether a direction with this target answers the signal's request.
    pub open spec fn answered_by(self, target: Option<DirectionTarget>) -> bool {
        match target {
            None => false,
            Some(t) => match t.request_id {
                Some(request_id) => self.makes(request_id),
                None => {
                    &&& t.source_event_id == self.event_id
                    &&& t.participant_id == self.published.participant_id
                    &&& t.work_id == self.published.work_id
                },
            },
        }
    }
}

/// What coordination knows.
#[verifier::ext_equal]
pub struct StateView {
    pub scopes: Set<Seq<char>>,
    pub scope_sequences: Map<Seq<char>, u64>,
    pub activity: Map<Seq<char>, u64>,
    pub workspaces: Map<Seq<char>, WorkspaceView>,
    pub participants: Map<ParticipantId, ParticipantView>,
    pub work: Map<WorkId, WorkClaimView>,
    pub signals: Seq<StoredSignalView>,
    pub resolved_requests: Set<RequestId>,
    pub directions: Map<DirectionId, DirectionView>,
    pub metrics: Map<Seq<char>, CoordinationMetrics>,
    pub last_sequence: u64,
}

/// The position of the first delivery to a participant.
pub open spec fn first_delivery(
    deliveries: Seq<DirectionDelivery>,
    participant_id: ParticipantId,
) -> Option<int>
    decreases deliveries.len(),
{
    if deliveries.len() == 0 {
        None
    } else {
        match first_delivery(deliveries.drop_last(), participant_id) {
            Some(i) => Some(i),
            None => if deliveries.last().participant_id == participant_id {
                Some(deliveries.len() - 1)
            } else {
                None
            },
        }
    }
}

/// The position of the first signal that makes the request of a given identity.
pub open spec fn first_request(signals: Seq<StoredSignalView>, request_id: RequestId) -> Option<int>
    decreases signals.len(),
{
    if signals.len() == 0 {
        None
    } else {
        match first_request(signals.drop_last(), request_id) {
            Some(i) => Some(i),
            None => if signals.last().makes(request_id) {
                Some(signals.len() - 1)
            } else {
                None
            },
        }
    }
}

impl StateView {
    /// Nothing is known yet.
    pub open spec fn empty() -> StateView {
        StateView {
            scopes: Set::empty(),
            scope_sequences: Map::empty(),
            activity: Map::empty(),
            workspaces: Map::empty(),
            participants: Map::empty(),
            work: Map::empty(),
            signals: Seq::empty(),
            resolved_requests: Set::empty(),
            directions: Map::empty(),
            metrics: Map::empty(),
            last_sequence: 0,
        }
    }

    /// The counters of a scope; those of a scope without any are zero.
    pub open spec fn metrics_of(self, scope: Seq<char>) -> CoordinationMetrics {
        if self.metrics.contains_key(scope) {
            self.metrics[scope]
        } else {
            CoordinationMetrics { prevented_overlaps: 0, human_interventions: 0 }
        }
    }

    /// Whether the counter that an event raises has room.
    pub open spec fn has_room(self, envelope: EventEnvelopeView) -> bool {
        let metrics = self.metrics_of(envelope.scope);
        match envelope.event {
            EventKindView::OverlapDetected { .. } => metrics.prevented_overlaps < u64::MAX,
            EventKindView::HumanIntervened { .. } => metrics.human_interventions < u64::MAX,
            EventKindView::DirectionIssued { .. } => metrics.human_interventions < u64::MAX,
            _ => true,
        }
    }

    /// The state with one more human intervention in a scope.
    pub open spec fn intervened(self, scope: Seq<char>) -> StateView {
        let metrics = self.metrics_of(scope);
        StateView {
            metrics: self.metrics.insert(
                scope,
                CoordinationMetrics {
                    prevented_overlaps: metrics.prevented_overlaps,
                    human_interventions: (metrics.human_interventions + 1) as u64,
                },
            ),
            ..self
        }
    }

    /// The state after an event has been noted in the log, before it takes effect. Renewals of
    /// presence do not count as activity.
    pub open spec fn noted(self, envelope: EventEnvelopeView) -> StateView {
        StateView {
            last_sequence: if self.last_sequence < envelope.sequence {
                envelope.sequence
            } else {
                self.last_sequence
            },
            scopes: self.scopes.insert(envelope.scope),
            scope_sequences: self.scope_sequences.insert(envelope.scope, envelope.sequence),
            activity: if envelope.event is PresenceRenewed {
                self.activity
            } else {
                self.activity.insert(envelope.scope, envelope.sequence)
            },
            ..self
        }
    }

    /// The state after an event.
    pub open spec fn applied(self, envelope: EventEnvelopeView) -> StateView {
        let s = self.noted(envelope);
        match envelope.event {
            EventKindView::WorkspaceDefined { workspace } => StateView {
                workspaces: s.workspaces.insert(workspace.scope, workspace),
                ..s
            },
            EventKindView::WorkspaceMetadataUpdated { workspace } => StateView {
                workspaces: s.workspaces.insert(workspace.scope, workspace),
                ..s
            },
            EventKindView::ParticipantJoined { participant } => StateView {
                participants: s.participants.insert(participant.id, participant),
                ..s
            },
            EventKindView::PresenceRenewed { participant_id, expires_at } => {
                if s.participants.contains_key(participant_id) {
                    StateView {
                        participants: s.participants.insert(
                            participant_id,
                            ParticipantView { expires_at, ..s.participants[participant_id] },
                        ),
                        ..s
                    }
                } else {
                    s
                }
            },
            EventKindView::ParticipantLeft { participant_id, .. } => StateView {
                participants: s.participants.remove(participant_id),
                ..s
            },
            EventKindView::WorkClaimed { work } => StateView {
                work: s.work.insert(work.id, work),
                ..s
            },
            EventKindView::OverlapDetected { .. } => {
                let metrics = s.metrics_of(envelope.scope);
                StateView {
                    metrics: s.metrics.insert(
                        envelope.scope,
                        CoordinationMetrics {
                            prevented_overlaps: (metrics.prevented_overlaps + 1) as u64,
                            human_interventions: metrics.human_interventions,
                        },
                    ),
                    ..s
                }
            },
            EventKindView::WorkReleased { work_id, .. } => StateView {
                work: s.work.remove(work_id),
                ..s
            },
            EventKindView::SignalPublished { published } => StateView {
                signals: s.signals.push(
                    StoredSignalView {
                        scope: envelope.scope,
                        event_id: envelope.event_id,
                        sequence: envelope.sequence,
                        published,
                    },
                ),
                ..s
            },
            EventKindView::AttentionResolved { request_id, .. } => StateView {
                resolved_requests: s.resolved_requests.insert(request_id),
                ..s
            },
            EventKindView::HumanIntervened { .. } => s.intervened(envelope.scope),
            EventKindView::DirectionIssued { direction } => StateView {
                directions: s.directions.insert(direction.id, direction),
                ..s.intervened(envelope.scope)
            },
            EventKindView::DirectionDelivered { direction_id, participant_id, delivered_at } => {
                if s.directions.contains_key(direction_id) {
                    let direction = s.directions[direction_id];
                    StateView {
                        directions: s.directions.insert(
                            direction_id,
                            DirectionView {
                                deliveries: direction.deliveries.push(
                                    DirectionDelivery {
                                        participant_id,
                                        delivered_at,
                                        consumed_at: None,
                                    },
                                ),
                                ..direction
                            },
                        ),
                        ..s
                    }
                } else {
                    s
                }
            },
            EventKindView::DirectionConsumed { direction_id, participant_id, consumed_at } => {
                if s.directions.contains_key(direction_id) {
                    StateView {
                        directions: s.directions.insert(
                            direction_id,
                            consumed_direction(
                                s.directions[direction_id],
                                participant_id,
                                consumed_at,
                            ),
                        ),
                        ..s
                    }
                } else {
                    s
                }
            },
        }
    }

    /// The participant, where it is present and its lease has not ended.
    pub open spec fn live(self, id: ParticipantId, now: Timestamp) -> Option<ParticipantView> {
        if self.participants.contains_key(id) && now.before(self.participants[id].expires_at) {
            Some(self.participants[id])
        } else {
            None
        }
    }

    /// Whether a later request has taken the place of the signal's.
    pub open spec fn superseded(self, source: StoredSignalView) -> bool {
        exists|i: int| 0 <= i < self.signals.len() && (#[trigger] self.signals[i]).supersedes(source)
    }

    /// Whether some direction answers the signal's request.
    pub open spec fn answered(self, source: StoredSignalView) -> bool {
        exists|id: DirectionId|
            self.directions.contains_key(id) && source.answered_by(
                (#[trigger] self.directions[id]).target,
            )
    }

    /// Whether the signal makes no request that is still open.
    pub open spec fn settled(self, source: StoredSignalView) -> bool {
        match source.identity() {
            None => true,
            Some(identity) => {
                ||| self.resolved_requests.contains(identity.request_id)
                ||| self.answered(source)
                ||| self.superseded(source)
            },
        }
    }

    /// The artifacts that a signal adds to the evidence of a request: those of earlier signals on
    /// the same work that make no request themselves.
    pub open spec fn background(
        scope: Seq<char>,
        stored: StoredSignalView,
    ) -> spec_fn(StoredSignalView) -> Seq<ArtifactRefView> {
        |candidate: StoredSignalView|
            if candidate.scope == scope && candidate.sequence < stored.sequence
                && candidate.published.work_id == stored.published.work_id
                && candidate.published.signal.attention() is None {
                candidate.published.signal.artifacts()
            } else {
                Seq::empty()
            }
    }

    /// The evidence of a request: what came before and what it names itself, ranked, without
    /// repeats.
    pub open spec fn evidence(
        self,
        scope: Seq<char>,
        stored: StoredSignalView,
        own: Seq<ArtifactRefView>,
    ) -> Seq<ArtifactRefView> {
        sequences::without_repeats(
            sequences::ranked::<ArtifactRef>(
                self.signals.flat_map(Self::background(scope, stored)) + own,
            ),
        )
    }

    /// The open request that a signal makes in a scope.
    pub open spec fn attention_item(
        self,
        scope: Seq<char>,
        stored: StoredSignalView,
    ) -> Option<AttentionItemView> {
        match (stored.published.signal.attention(), stored.identity()) {
            (Some((category, request, own)), Some(identity)) => {
                if stored.scope == scope && stored.published.signal.fault() is None
                    && !self.settled(stored) {
                    Some(
                        AttentionItemView {
                            request_id: identity.request_id,
                            request_key: identity.request_key,
                            source_scope: scope,
                            source_event_id: stored.event_id,
                            work_id: stored.published.work_id,
                            participant_id: stored.published.participant_id,
                            category,
                            created_at: stored.published.published_at,
                            lifecycle: RequestLifecycle::Open,
                            request,
                            evidence: self.evidence(scope, stored, own),
                            target: AttentionTargetView { scope, event_id: stored.event_id },
                        },
                    )
                } else {
                    None
                }
            },
            _ => None,
        }
    }

    /// The open requests of a scope, by signal.
    pub open spec fn item_in(self, scope: Seq<char>) -> spec_fn(StoredSignalView) -> Option<
        AttentionItemView,
    > {
        |stored: StoredSignalView| self.attention_item(scope, stored)
    }

    /// The open requests of a scope, in the order of the log.
    pub open spec fn attention_for_scope(self, scope: Seq<char>) -> Seq<AttentionItemView> {
        self.signals.filter_map(self.item_in(scope))
    }

    /// The open requests by scope.
    pub open spec fn items_by_scope(self) -> spec_fn(Seq<char>) -> Seq<AttentionItemView> {
        |scope: Seq<char>| self.attention_for_scope(scope)
    }

    /// The open requests of all scopes, the most pressing first.
    pub open spec fn attention(self) -> Seq<AttentionItemView> {
        sequences::ranked::<AttentionItem>(
            ordered::listing::<String>(self.scopes).flat_map(self.items_by_scope()),
        )
    }

    /// All that is known of a scope.
    pub open spec fn snapshot(self, scope: Seq<char>) -> ScopeSnapshotView {
        ScopeSnapshotView {
            scope,
            workspace: if self.workspaces.contains_key(scope) {
                Some(self.workspaces[scope])
            } else {
                None
            },
            participants: ordered::in_order::<ParticipantId, ParticipantView>(
                self.participants,
            ).filter(participant_in(scope)),
            active_work: ordered::in_order::<WorkId, WorkClaimView>(self.work).filter(
                work_in(scope),
            ),
            signals: self.signals.filter_map(signal_in(scope)),
            attention: self.attention_for_scope(scope),
            metrics: self.metrics_of(scope),
            last_sequence: if self.scope_sequences.contains_key(scope) {
                self.scope_sequences[scope]
            } else {
                0
            },
        }
    }

    /// A workspace in a line.
    pub open spec fn summary(self, scope: Seq<char>) -> WorkspaceSummaryView {
        let snapshot = self.snapshot(scope);
        WorkspaceSummaryView {
            scope,
            title: match snapshot.workspace {
                Some(workspace) => Some(workspace.title),
                None => None,
            },
            lifecycle: lifecycle_of(snapshot),
            active_participants: snapshot.participants.len() as usize,
            active_work: snapshot.active_work.len() as usize,
            last_sequence: snapshot.last_sequence,
        }
    }

    /// The workspaces by scope, each with the sequence of its last activity.
    pub open spec fn active_summary(self) -> spec_fn(Seq<char>) -> (
        Option<u64>,
        WorkspaceSummaryView,
    ) {
        |scope: Seq<char>|
            (
                if self.activity.contains_key(scope) {
                    Some(self.activity[scope])
                } else {
                    None
                },
                self.summary(scope),
            )
    }

    /// The workspaces, the one with the latest activity first.
    pub open spec fn workspace_summaries(self) -> Seq<WorkspaceSummaryView> {
        sequences::ranked::<(Option<u64>, WorkspaceSummary)>(
            ordered::listing::<String>(self.scopes).map_values(self.active_summary()),
        ).map_values(|entry: (Option<u64>, WorkspaceSummaryView)| entry.1)
    }

    /// The directions that a present participant has received and not consumed.
    pub open spec fn directions_for(self, participant_id: ParticipantId) -> Seq<DirectionView> {
        if self.participants.contains_key(participant_id) {
            ordered::in_order::<DirectionId, DirectionView>(self.directions).filter(
                pending_for(participant_id),
            )
        } else {
            Seq::empty()
        }
    }

    /// Whether a direction concerns a participant: it names none, or names this one, or names one
    /// that is gone whose work this one has.
    pub open spec fn concerns(self, direction: DirectionView, participant_id: ParticipantId) -> bool {
        match direction.target {
            None => true,
            Some(target) => if self.participants.contains_key(target.participant_id) {
                target.participant_id == participant_id
            } else {
                &&& target.work_id is Some
                &&& self.work.contains_key(target.work_id->0)
                &&& self.work[target.work_id->0].owner == participant_id
            },
        }
    }

    /// The release of work by its owner's departure.
    pub open spec fn release_of(
        participant: ParticipantView,
        reason: ReleaseReason,
    ) -> spec_fn(WorkClaimView) -> Option<PendingEventView> {
        |work: WorkClaimView|
            if work.owner == participant.id {
                Some(
                    PendingEventView {
                        scope: participant.scope,
                        event: EventKindView::WorkReleased {
                            work_id: work.id,
                            previous_owner: participant.id,
                            reason,
                        },
                    },
                )
            } else {
                None
            }
    }

    /// The events of a departure: all the participant's work is released, then it leaves.
    pub open spec fn departure(self, participant: ParticipantView, reason: LeaveReason) -> Seq<
        PendingEventView,
    > {
        let release_reason = match reason {
            LeaveReason::Graceful => ReleaseReason::ParticipantLeft,
            LeaveReason::LeaseExpired => ReleaseReason::LeaseExpired,
        };
        ordered::in_order::<WorkId, WorkClaimView>(self.work).filter_map(
            Self::release_of(participant, release_reason),
        ).push(
            PendingEventView {
                scope: participant.scope,
                event: EventKindView::ParticipantLeft { participant_id: participant.id, reason },
            },
        )
    }

    /// The events of a participant's departure where its lease has ended.
    pub open spec fn expiry(self, now: Timestamp) -> spec_fn(ParticipantView) -> Seq<
        PendingEventView,
    > {
        |participant: ParticipantView|
            if now.before(participant.expires_at) {
                Seq::empty()
            } else {
                self.departure(participant, LeaveReason::LeaseExpired)
            }
    }

    /// The departures of all whose lease has ended.
    pub open spec fn expired(self, now: Timestamp) -> Seq<PendingEventView> {
        ordered::in_order::<ParticipantId, ParticipantView>(self.participants).flat_map(
            self.expiry(now),
        )
    }
}

/// A direction whose first delivery to a participant has been consumed.
pub open spec fn consumed_direction(
    direction: DirectionView,
    participant_id: ParticipantId,
    consumed_at: Timestamp,
) -> DirectionView {
    match first_delivery(direction.deliveries, participant_id) {
        Some(i) => DirectionView {
            deliveries: direction.deliveries.update(
                i,
                DirectionDelivery {
                    consumed_at: Some(consumed_at),
                    ..direction.deliveries[i]
                },
            ),
            ..direction
        },
        None => direction,
    }
}

/// The participants of a scope.
pub open spec fn participant_in(scope: Seq<char>) -> spec_fn(ParticipantView) -> bool {
    |participant: ParticipantView| participant.scope == scope
}

/// The claims of a scope.
pub open spec fn work_in(scope: Seq<char>) -> spec_fn(WorkClaimView) -> bool {
    |work: WorkClaimView| work.scope == scope
}

/// The signals of a scope.
pub open spec fn signal_in(scope: Seq<char>) -> spec_fn(StoredSignalView) -> Option<
    PublishedSignalView,
> {
    |stored: StoredSignalView|
        if stored.scope == scope {
            Some(stored.published)
        } else {
            None
        }
}

/// Whether a direction has been delivered to a participant and not consumed.
pub open spec fn is_pending(direction: DirectionView, participant_id: ParticipantId) -> bool {
    exists|i: int|
        0 <= i < direction.deliveries.len() && (#[trigger] direction.deliveries[i]).participant_id
            == participant_id && direction.deliveries[i].consumed_at is None
}

/// The directions that a participant has received and not consumed.
pub open spec fn pending_for(participant_id: ParticipantId) -> spec_fn(DirectionView) -> bool {
    |direction: DirectionView| is_pending(direction, participant_id)
}

/// A workspace is active while anyone or any work is there; otherwise it is completed where the
/// last signal said so.
pub open spec fn lifecycle_of(snapshot: ScopeSnapshotView) -> WorkspaceLifecycle {
    if snapshot.participants.len() > 0 || snapshot.active_work.len() > 0 {
        WorkspaceLifecycle::Active
    } else if snapshot.signals.len() > 0 && snapshot.signals.last().signal is Done {
        WorkspaceLifecycle::Completed
    } else {
        WorkspaceLifecycle::Idle
    }
}

/// The reason why a workspace is not fit to be defined.
pub open spec fn workspace_fault(workspace: WorkspaceView) -> Option<Seq<char>> {
    signals::first_fault(
        signals::text_fault("scope"@, workspace.scope),
        signals::first_fault(
            signals::text_fault("title"@, workspace.title),
            signals::first_fault(
                signals::text_fault("objective"@, workspace.objective),
                signals::first_fault(
                    signals::text_fault(
                        "Linear issue identifier"@,
                        workspace.linear_issue.identifier,
                    ),
                    if workspace.scope != "linear:"@ + workspace.linear_issue.identifier {
                        Some("workspace scope must be linear:<issue identifier>"@)
                    } else {
                        match workspace.repository {
                            Some(repository) => signals::text_fault(
                                "repository"@,
                                repository.repository,
                            ),
                            None => None,
                        }
                    },
                ),
            ),
        ),
    )
}

/// A lease lasts from 5 to 300 seconds.
pub open spec fn lease_fault(seconds: u64) -> Option<Seq<char>> {
    if 5 <= seconds <= 300 {
        None
    } else {
        Some("lease must be between 5 and 300 seconds"@)
    }
}

/// Acceptance of a command with one event.
pub open spec fn accepted(
    scope: Seq<char>,
    event: EventKindView,
    participant_id: Option<ParticipantId>,
    work_id: Option<WorkId>,
) -> DecisionView {
    DecisionView::Accepted {
        events: seq![PendingEventView { scope, event }],
        participant_id,
        work_id,
    }
}

/// Acceptance of a command that changes nothing.
pub open spec fn unchanged(participant_id: Option<ParticipantId>) -> DecisionView {
    DecisionView::Accepted { events: Seq::empty(), participant_id, work_id: None }
}

impl StateView {
    /// What defining a workspace leads to.
    pub open spec fn defined(self, workspace: WorkspaceView) -> DecisionView {
        match workspace_fault(workspace) {
            Some(reason) => DecisionView::Rejected(reason),
            None => if self.workspaces.contains_key(workspace.scope) {
                if self.workspaces[workspace.scope] == workspace {
                    unchanged(None)
                } else {
                    DecisionView::Rejected(
                        "workspace is already defined with different metadata"@,
                    )
                }
            } else {
                accepted(
                    workspace.scope,
                    EventKindView::WorkspaceDefined { workspace },
                    None,
                    None,
                )
            },
        }
    }

    /// The reason why a workspace's metadata is not taken in place of what is known.
    pub open spec fn refresh_fault(self, workspace: WorkspaceView) -> Option<Seq<char>> {
        let existing = self.workspaces[workspace.scope];
        if workspace_fault(workspace) is Some {
            workspace_fault(workspace)
        } else if !self.workspaces.contains_key(workspace.scope) {
            Some("workspace must be defined before metadata refresh"@)
        } else if existing.linear_issue.identifier != workspace.linear_issue.identifier
            || existing.repository != workspace.repository {
            Some("workspace identity cannot change during refresh"@)
        } else {
            match workspace.linear_issue.metadata {
                None => Some("refreshed Linear metadata must include source state"@),
                Some(metadata) => signals::first_fault(
                    signals::text_fault("Linear status"@, metadata.status),
                    match existing.linear_issue.metadata {
                        None => None,
                        Some(cached) => if metadata.updated_at.before(cached.updated_at) {
                            Some("Linear metadata refresh is older than cached state"@)
                        } else if metadata.updated_at == cached.updated_at && existing
                            != workspace {
                            Some("Linear metadata changed without a newer source timestamp"@)
                        } else {
                            None
                        },
                    },
                ),
            }
        }
    }

    /// What refreshing a workspace's metadata leads to.
    pub open spec fn refreshed(self, workspace: WorkspaceView) -> DecisionView {
        match self.refresh_fault(workspace) {
            Some(reason) => DecisionView::Rejected(reason),
            None => if self.workspaces[workspace.scope] == workspace {
                unchanged(None)
            } else {
                accepted(
                    workspace.scope,
                    EventKindView::WorkspaceMetadataUpdated { workspace },
                    None,
                    None,
                )
            },
        }
    }

    /// What joining a scope leads to.
    pub open spec fn joined(
        self,
        scope: Seq<char>,
        name: Seq<char>,
        manifest: EnvironmentManifestView,
        lease_seconds: u64,
        context: DecisionContext,
    ) -> DecisionView {
        match signals::first_fault(
            signals::text_fault("scope"@, scope),
            signals::first_fault(signals::text_fault("name"@, name), lease_fault(lease_seconds)),
        ) {
            Some(reason) => DecisionView::Rejected(reason),
            None => accepted(
                scope,
                EventKindView::ParticipantJoined {
                    participant: ParticipantView {
                        id: context.participant_id,
                        scope,
                        name,
                        manifest,
                        joined_at: context.now,
                        expires_at: context.now.later(lease_seconds as int),
                    },
                },
                Some(context.participant_id),
                None,
            ),
        }
    }

    /// What renewing a participant's presence leads to.
    pub open spec fn renewed(
        self,
        participant_id: ParticipantId,
        lease_seconds: u64,
        context: DecisionContext,
    ) -> DecisionView {
        match (self.live(participant_id, context.now), lease_fault(lease_seconds)) {
            (None, _) => DecisionView::Rejected("participant is absent or its lease expired"@),
            (Some(_), Some(reason)) => DecisionView::Rejected(reason),
            (Some(participant), None) => accepted(
                participant.scope,
                EventKindView::PresenceRenewed {
                    participant_id,
                    expires_at: context.now.later(lease_seconds as int),
                },
                Some(participant_id),
                None,
            ),
        }
    }

    /// The conflict of a claim with the resources that are asked for.
    pub open spec fn conflict_with(
        scope: Seq<char>,
        wanted: Seq<Seq<char>>,
    ) -> spec_fn(WorkClaimView) -> Option<ConflictView> {
        |work: WorkClaimView|
            if work.scope == scope && resources::lists_overlap(wanted, work.resources) {
                Some(
                    ConflictView {
                        work_id: work.id,
                        owner: work.owner,
                        resources: work.resources,
                        summary: work.summary,
                    },
                )
            } else {
                None
            }
    }

    /// The claims of a scope that overlap the resources that are asked for.
    pub open spec fn conflicts(self, scope: Seq<char>, wanted: Seq<Seq<char>>) -> Seq<
        ConflictView,
    > {
        ordered::in_order::<WorkId, WorkClaimView>(self.work).filter_map(
            Self::conflict_with(scope, wanted),
        )
    }

    /// What claiming work leads to.
    pub open spec fn claimed(
        self,
        participant_id: ParticipantId,
        summary: Seq<char>,
        wanted: Seq<Seq<char>>,
        context: DecisionContext,
    ) -> DecisionView {
        match self.live(participant_id, context.now) {
            None => DecisionView::Rejected("participant is absent or its lease expired"@),
            Some(participant) => if text::is_blank(summary) {
                DecisionView::Rejected("summary"@ + " must not be empty"@)
            } else {
                match resources::normalized(wanted, context.paths) {
                    Err(reason) => DecisionView::Rejected(reason),
                    Ok(paths) => self.claimed_paths(
                        participant_id,
                        participant.scope,
                        summary,
                        paths,
                        context,
                    ),
                }
            },
        }
    }

    /// What claiming work on paths in canonical form leads to.
    pub open spec fn claimed_paths(
        self,
        participant_id: ParticipantId,
        scope: Seq<char>,
        summary: Seq<char>,
        paths: Seq<Seq<char>>,
        context: DecisionContext,
    ) -> DecisionView {
        let conflicts = self.conflicts(scope, paths);
        if paths.len() == 0 {
            DecisionView::Rejected("a work claim needs at least one resource"@)
        } else if conflicts.len() > 0 {
            DecisionView::Conflict {
                events: seq![
                    PendingEventView {
                        scope,
                        event: EventKindView::OverlapDetected {
                            attempted_by: participant_id,
                            attempted_resources: paths,
                            conflicts,
                        },
                    },
                ],
                conflicts,
            }
        } else {
            accepted(
                scope,
                EventKindView::WorkClaimed {
                    work: WorkClaimView {
                        id: context.work_id,
                        scope,
                        owner: participant_id,
                        summary,
                        resources: paths,
                        claimed_at: context.now,
                    },
                },
                Some(participant_id),
                Some(context.work_id),
            )
        }
    }

    /// Whether some signal makes the request of a given identity.
    pub open spec fn knows_request(self, request_id: RequestId) -> bool {
        exists|i: int| 0 <= i < self.signals.len() && (#[trigger] self.signals[i]).makes(request_id)
    }

    /// Whether a participant has made the request of a given identity on given work in a scope.
    pub open spec fn made_request(
        self,
        scope: Seq<char>,
        participant_id: ParticipantId,
        work_id: Option<WorkId>,
        request_id: RequestId,
    ) -> bool {
        exists|i: int|
            0 <= i < self.signals.len() && (#[trigger] self.signals[i]).makes(request_id)
                && self.signals[i].scope == scope && self.signals[i].published.participant_id
                == participant_id && self.signals[i].published.work_id == work_id
    }

    /// The reason why a request may not be published.
    pub open spec fn request_fault(
        self,
        participant_id: ParticipantId,
        scope: Seq<char>,
        work_id: Option<WorkId>,
        identity: RequestIdentityView,
    ) -> Option<Seq<char>> {
        if self.knows_request(identity.request_id) {
            Some("request ID already exists"@)
        } else {
            match identity.supersedes_request_id {
                None => None,
                Some(superseded) => if superseded == identity.request_id {
                    Some("request cannot supersede itself"@)
                } else if !self.made_request(
                    scope,
                    participant_id,
                    work_id,
                    superseded,
                ) {
                    Some("superseded request does not exist"@)
                } else {
                    None
                },
            }
        }
    }

    /// The reason why a signal may not be published on given work.
    pub open spec fn work_fault(
        self,
        participant_id: ParticipantId,
        scope: Seq<char>,
        work_id: Option<WorkId>,
        signal: SignalView,
    ) -> Option<Seq<char>> {
        match work_id {
            Some(id) => if !self.work.contains_key(id) {
                Some("work claim is not active"@)
            } else if self.work[id].scope != scope {
                Some("work claim belongs to a different workspace"@)
            } else if signal.requires_work() && self.work[id].owner != participant_id {
                Some("signal requires ownership of the work claim"@)
            } else {
                None
            },
            None => if signal.requires_work() {
                Some("signal requires an active work claim"@)
            } else {
                None
            },
        }
    }

    /// The reason why a present participant may not publish a signal.
    pub open spec fn publish_fault(
        self,
        participant_id: ParticipantId,
        scope: Seq<char>,
        work_id: Option<WorkId>,
        signal: SignalView,
    ) -> Option<Seq<char>> {
        signals::first_fault(
            signal.fault(),
            signals::first_fault(
                match signal.request_identity() {
                    Some(identity) => self.request_fault(participant_id, scope, work_id, identity),
                    None => None,
                },
                self.work_fault(participant_id, scope, work_id, signal),
            ),
        )
    }

    /// What publishing a signal leads to; that work is done also releases it.
    pub open spec fn published(
        self,
        participant_id: ParticipantId,
        work_id: Option<WorkId>,
        signal: SignalView,
        context: DecisionContext,
    ) -> DecisionView {
        match self.live(participant_id, context.now) {
            None => DecisionView::Rejected("participant is absent or its lease expired"@),
            Some(participant) => match self.publish_fault(
                participant_id,
                participant.scope,
                work_id,
                signal,
            ) {
                Some(reason) => DecisionView::Rejected(reason),
                None => {
                    let publication = PendingEventView {
                        scope: participant.scope,
                        event: EventKindView::SignalPublished {
                            published: PublishedSignalView {
                                participant_id,
                                work_id,
                                signal,
                                published_at: context.now,
                            },
                        },
                    };
                    DecisionView::Accepted {
                        events: if signal is Done {
                            seq![
                                publication,
                                PendingEventView {
                                    scope: participant.scope,
                                    event: EventKindView::WorkReleased {
                                        work_id: work_id->0,
                                        previous_owner: self.work[work_id->0].owner,
                                        reason: ReleaseReason::Completed,
                                    },
                                },
                            ]
                        } else {
                            seq![publication]
                        },
                        participant_id: Some(participant_id),
                        work_id,
                    }
                },
            },
        }
    }

    /// Whether a participant may resolve the request that a signal makes: it made the request or
    /// owns the work, and it is in the same scope.
    pub open spec fn may_resolve(
        self,
        participant_id: ParticipantId,
        scope: Seq<char>,
        source: StoredSignalView,
    ) -> bool {
        &&& source.scope == scope
        &&& {
            ||| source.published.participant_id == participant_id
            ||| {
                &&& source.published.work_id is Some
                &&& self.work.contains_key(source.published.work_id->0)
                &&& self.work[source.published.work_id->0].owner == participant_id
            }
        }
    }

    /// What resolving a request leads to.
    pub open spec fn resolved(
        self,
        participant_id: ParticipantId,
        request_id: RequestId,
        summary: Seq<char>,
        context: DecisionContext,
    ) -> DecisionView {
        match self.live(participant_id, context.now) {
            None => DecisionView::Rejected("participant is absent or its lease expired"@),
            Some(participant) => if text::is_blank(summary) {
                DecisionView::Rejected("summary"@ + " must not be empty"@)
            } else {
                match first_request(self.signals, request_id) {
                    None => DecisionView::Rejected("request does not exist"@),
                    Some(i) => {
                        let source = self.signals[i];
                        if self.resolved_requests.contains(request_id) || self.superseded(source) {
                            DecisionView::Rejected("request is no longer open"@)
                        } else if !self.may_resolve(participant_id, participant.scope, source) {
                            DecisionView::Rejected("participant cannot resolve this request"@)
                        } else {
                            accepted(
                                source.scope,
                                EventKindView::AttentionResolved {
                                    request_id,
                                    participant_id,
                                    summary,
                                    resolved_at: context.now,
                                },
                                Some(participant_id),
                                source.published.work_id,
                            )
                        }
                    },
                }
            },
        }
    }

    /// What leaving leads to.
    pub open spec fn left(self, participant_id: ParticipantId) -> DecisionView {
        if self.participants.contains_key(participant_id) {
            DecisionView::Accepted {
                events: self.departure(self.participants[participant_id], LeaveReason::Graceful),
                participant_id: Some(participant_id),
                work_id: None,
            }
        } else {
            DecisionView::Rejected("participant does not exist"@)
        }
    }

    /// Whether a target names an open request of a scope, by every mark that it has.
    pub open spec fn names_open_request(self, scope: Seq<char>, target: DirectionTarget) -> bool {
        exists|i: int|
            0 <= i < self.signals.len() && names(scope, target, #[trigger] self.signals[i])
                && !self.settled(self.signals[i])
    }

    /// What a human direction leads to.
    pub open spec fn directed(
        self,
        scope: Seq<char>,
        message: Seq<char>,
        author: Seq<char>,
        target: Option<DirectionTarget>,
        context: DecisionContext,
    ) -> DecisionView {
        match signals::first_fault(
            signals::text_fault("scope"@, scope),
            signals::first_fault(
                signals::text_fault("message"@, message),
                signals::text_fault("author"@, author),
            ),
        ) {
            Some(reason) => DecisionView::Rejected(reason),
            None => if target is Some && !self.names_open_request(scope, target->0) {
                DecisionView::Rejected(
                    "direction target does not identify a source request in this workspace"@,
                )
            } else {
                accepted(
                    scope,
                    EventKindView::DirectionIssued {
                        direction: DirectionView {
                            id: context.direction_id,
                            scope,
                            message,
                            author,
                            created_at: context.now,
                            target,
                            deliveries: Seq::empty(),
                        },
                    },
                    None,
                    None,
                )
            },
        }
    }

    /// Whether a direction is to be delivered to a participant: it belongs to the same scope,
    /// concerns the participant and has not been delivered to it before.
    pub open spec fn deliverable(
        self,
        direction: DirectionView,
        scope: Seq<char>,
        participant_id: ParticipantId,
    ) -> bool {
        &&& direction.scope == scope
        &&& self.concerns(direction, participant_id)
        &&& first_delivery(direction.deliveries, participant_id) is None
    }

    /// The delivery of a direction to a participant.
    pub open spec fn delivery_of(
        self,
        scope: Seq<char>,
        participant_id: ParticipantId,
        delivered_at: Timestamp,
    ) -> spec_fn(DirectionView) -> Option<PendingEventView> {
        |direction: DirectionView|
            if self.deliverable(direction, scope, participant_id) {
                Some(
                    PendingEventView {
                        scope,
                        event: EventKindView::DirectionDelivered {
                            direction_id: direction.id,
                            participant_id,
                            delivered_at,
                        },
                    },
                )
            } else {
                None
            }
    }

    /// What asking for directions leads to.
    pub open spec fn delivered(
        self,
        participant_id: ParticipantId,
        context: DecisionContext,
    ) -> DecisionView {
        match self.live(participant_id, context.now) {
            None => DecisionView::Rejected("participant is absent or its lease expired"@),
            Some(participant) => DecisionView::Accepted {
                events: ordered::in_order::<DirectionId, DirectionView>(self.directions).filter_map(
                    self.delivery_of(participant.scope, participant_id, context.now),
                ),
                participant_id: Some(participant_id),
                work_id: None,
            },
        }
    }

    /// What consuming a direction leads to.
    pub open spec fn consumed(
        self,
        participant_id: ParticipantId,
        direction_id: DirectionId,
        context: DecisionContext,
    ) -> DecisionView {
        let direction = self.directions[direction_id];
        if self.live(participant_id, context.now) is None {
            DecisionView::Rejected("participant is absent or its lease expired"@)
        } else if !self.directions.contains_key(direction_id) {
            DecisionView::Rejected("direction does not exist"@)
        } else {
            match first_delivery(direction.deliveries, participant_id) {
                None => DecisionView::Rejected("direction was not delivered to this participant"@),
                Some(i) => if direction.deliveries[i].consumed_at is Some {
                    unchanged(Some(participant_id))
                } else {
                    accepted(
                        direction.scope,
                        EventKindView::DirectionConsumed {
                            direction_id,
                            participant_id,
                            consumed_at: context.now,
                        },
                        Some(participant_id),
                        None,
                    )
                },
            }
        }
    }

    /// What a command leads to.
    pub open spec fn decided(self, command: CommandView, context: DecisionContext) -> DecisionView {
        match command {
            CommandView::DefineWorkspace { workspace } => self.defined(workspace),
            CommandView::RefreshWorkspaceMetadata { workspace } => self.refreshed(workspace),
            CommandView::Join { scope, name, manifest, lease_seconds } => self.joined(
                scope,
                name,
                manifest,
                lease_seconds,
                context,
            ),
            CommandView::RenewPresence { participant_id, lease_seconds } => self.renewed(
                participant_id,
                lease_seconds,
                context,
            ),
            CommandView::ClaimWork { participant_id, summary, resources } => self.claimed(
                participant_id,
                summary,
                resources,
                context,
            ),
            CommandView::PublishSignal { participant_id, work_id, signal } => self.published(
                participant_id,
                work_id,
                signal,
                context,
            ),
            CommandView::ResolveAttention { participant_id, request_id, summary } => self.resolved(
                participant_id,
                request_id,
                summary,
                context,
            ),
            CommandView::Leave { participant_id } => self.left(participant_id),
            CommandView::Intervene { scope, message, author, target } => self.directed(
                scope,
                message,
                author,
                target,
                context,
            ),
            CommandView::DeliverDirections { participant_id } => self.delivered(
                participant_id,
                context,
            ),
            CommandView::ConsumeDirection { participant_id, direction_id } => self.consumed(
                participant_id,
                direction_id,
                context,
            ),
        }
    }
}

/// Whether a target names the request of a signal by its scope, its event, its sender, its work
/// and its identity.
pub open spec fn names(
    scope: Seq<char>,
    target: DirectionTarget,
    source: StoredSignalView,
) -> bool {
    &&& source.scope == scope
    &&& source.event_id == target.source_event_id
    &&& source.published.participant_id == target.participant_id
    &&& source.published.work_id == target.work_id
    &&& target.request_id is Some
    &&& source.makes(target.request_id->0)
}

/// Whether the calendar has room for the lease that a command asks for.
pub open spec fn lease_fits(command: CommandView, now: Timestamp) -> bool {
    match command {
        CommandView::Join { lease_seconds, .. } => 5 <= lease_seconds <= 300 ==> now.has_room(
            lease_seconds as int,
        ),
        CommandView::RenewPresence { lease_seconds, .. } => 5 <= lease_seconds <= 300
            ==> now.has_room(lease_seconds as int),
        _ => true,
    }
}

/// Whether envelopes carry events into the log, in their order.
pub open spec fn carries(envelopes: Seq<EventEnvelopeView>, events: Seq<PendingEventView>) -> bool {
    &&& envelopes.len() == events.len()
    &&& forall|i: int|
        0 <= i < events.len() ==> (#[trigger] envelopes[i]).scope == events[i].scope
            && envelopes[i].event == events[i].event
}

impl StateView {
    /// The state after a run of events.
    pub open spec fn replayed(self, envelopes: Seq<EventEnvelopeView>) -> StateView
        decreases envelopes.len(),
    {
        if envelopes.len() == 0 {
            self
        } else {
            self.replayed(envelopes.drop_last()).applied(envelopes.last())
        }
    }

    /// Whether envelopes continue the log: each has a later sequence than all before it.
    pub open spec fn continued_by(self, envelopes: Seq<EventEnvelopeView>) -> bool {
        &&& forall|i: int|
            0 <= i < envelopes.len() ==> self.last_sequence < (#[trigger] envelopes[i]).sequence
        &&& forall|i: int, j: int|
            0 <= i < j < envelopes.len() ==> (#[trigger] envelopes[i]).sequence < (
            #[trigger] envelopes[j]).sequence
    }

    /// Whether no counter has counted more than there are sequences, as in every state that a log
    /// builds up.
    pub open spec fn counted(self) -> bool {
        forall|scope: Seq<char>| #[trigger]
            self.metrics.contains_key(scope) ==> self.metrics[scope].prevented_overlaps
                <= self.last_sequence && self.metrics[scope].human_interventions
                <= self.last_sequence
    }

    /// Whether the tables are finite and every entry stands under its own identity, as in every
    /// state that events build up.
    pub open spec fn well_formed(self) -> bool {
        &&& self.scopes.finite()
        &&& self.participants.dom().finite()
        &&& self.work.dom().finite()
        &&& self.directions.dom().finite()
        &&& forall|id: ParticipantId| #[trigger]
            self.participants.contains_key(id) ==> self.participants[id].id == id
        &&& forall|id: WorkId| #[trigger] self.work.contains_key(id) ==> self.work[id].id == id
        &&& forall|id: DirectionId| #[trigger]
            self.directions.contains_key(id) ==> self.directions[id].id == id
    }

    /// Whether no two claims of a scope overlap.
    pub open spec fn exclusive(self) -> bool {
        forall|a: WorkId, b: WorkId| #[trigger]
            self.work.contains_key(a) && #[trigger] self.work.contains_key(b) && a != b
                && self.work[a].scope == self.work[b].scope ==> !resources::lists_overlap(
                self.work[a].resources,
                self.work[b].resources,
            )
    }

    /// Whether all work belongs to a participant of its scope.
    pub open spec fn owned(self) -> bool {
        forall|id: WorkId| #[trigger]
            self.work.contains_key(id) ==> self.participants.contains_key(self.work[id].owner)
                && self.participants[self.work[id].owner].scope == self.work[id].scope
    }
}

} // verus!
