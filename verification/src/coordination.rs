//! Coordination: the state that events build up, and the decisions on commands.
use vstd::prelude::*;

use crate::identity;
use crate::model;
use crate::model::{StateView, StoredSignalView};
use crate::ordered::Table;
use crate::paths::PathStyle;
use crate::protocol::{
    Conflict, ConflictView, CoordinationMetrics, Direction, DirectionDelivery, DirectionId,
    EventEnvelope, EventKind, EventKindView, Participant, ParticipantId, PublishedSignal, RequestId,
    WorkClaim, WorkId, Workspace,
};
use crate::time::Timestamp;

pub mod decide;
pub mod read;
pub mod requests;

pub use requests::stored_request_identity;

verus! {

/// A published signal with its place in the log.
#[derive(Debug)]
pub struct StoredSignal {
    pub scope: String,
    pub event_id: u128,
    pub sequence: u64,
    pub published: PublishedSignal,
}

impl View for StoredSignal {
    type V = StoredSignalView;

    open spec fn view(&self) -> StoredSignalView {
        StoredSignalView {
            scope: self.scope@,
            event_id: self.event_id,
            sequence: self.sequence,
            published: self.published@,
        }
    }
}

impl DeepView for StoredSignal {
    type V = StoredSignalView;

    open spec fn deep_view(&self) -> StoredSignalView {
        self.view()
    }
}

/// When a command is decided, the identities that it may give away, and how paths are written.
#[derive(Clone, Copy, Debug)]
pub struct DecisionContext {
    pub now: Timestamp,
    pub participant_id: ParticipantId,
    pub work_id: WorkId,
    pub direction_id: DirectionId,
    pub paths: PathStyle,
}

impl DecisionContext {
    /// A context with new identities, on this machine. Which identities they are and how paths are
    /// written is the machine's answer.
    pub fn at(now: Timestamp) -> (r: Self)
        ensures
            r.now == now,
            identity::is_version_seven(r.participant_id.0),
            identity::is_version_seven(r.work_id.0),
            identity::is_version_seven(r.direction_id.0),
    {
        DecisionContext {
            now,
            participant_id: ParticipantId::new(),
            work_id: WorkId::new(),
            direction_id: DirectionId::new(),
            paths: PathStyle::of_this_machine(),
        }
    }
}

/// An event that is not in the log yet.
#[derive(Clone, Debug)]
pub struct PendingEvent {
    pub scope: String,
    pub event: EventKind,
}

/// What [`PendingEvent`] stands for.
#[verifier::ext_equal]
pub struct PendingEventView {
    pub scope: Seq<char>,
    pub event: EventKindView,
}

impl View for PendingEvent {
    type V = PendingEventView;

    open spec fn view(&self) -> PendingEventView {
        PendingEventView { scope: self.scope@, event: self.event@ }
    }
}

impl DeepView for PendingEvent {
    type V = PendingEventView;

    open spec fn deep_view(&self) -> PendingEventView {
        self.view()
    }
}

/// What a command leads to.
#[derive(Clone, Debug)]
pub enum Decision {
    Accepted {
        events: Vec<PendingEvent>,
        participant_id: Option<ParticipantId>,
        work_id: Option<WorkId>,
    },
    Conflict { events: Vec<PendingEvent>, conflicts: Vec<Conflict> },
    Rejected(String),
}

/// What [`Decision`] stands for.
#[verifier::ext_equal]
pub enum DecisionView {
    Accepted {
        events: Seq<PendingEventView>,
        participant_id: Option<ParticipantId>,
        work_id: Option<WorkId>,
    },
    Conflict { events: Seq<PendingEventView>, conflicts: Seq<ConflictView> },
    Rejected(Seq<char>),
}

impl DecisionView {
    /// The events that follow from a decision.
    pub open spec fn events(self) -> Seq<PendingEventView> {
        match self {
            DecisionView::Accepted { events, .. } => events,
            DecisionView::Conflict { events, .. } => events,
            DecisionView::Rejected(_) => Seq::empty(),
        }
    }
}

impl View for Decision {
    type V = DecisionView;

    open spec fn view(&self) -> DecisionView {
        match self {
            Decision::Accepted { events, participant_id, work_id } => DecisionView::Accepted {
                events: events.deep_view(),
                participant_id: *participant_id,
                work_id: *work_id,
            },
            Decision::Conflict { events, conflicts } => DecisionView::Conflict {
                events: events.deep_view(),
                conflicts: conflicts.deep_view(),
            },
            Decision::Rejected(reason) => DecisionView::Rejected(reason@),
        }
    }
}

/// The state of coordination, built up from events.
#[derive(Debug)]
pub struct CoordinationState {
    scopes: Table<String, ()>,
    scope_sequences: Table<String, u64>,
    activity: Table<String, u64>,
    workspaces: Table<String, Workspace>,
    participants: Table<ParticipantId, Participant>,
    work: Table<WorkId, WorkClaim>,
    signals: Vec<StoredSignal>,
    resolved_requests: Table<RequestId, ()>,
    directions: Table<DirectionId, Direction>,
    metrics: Table<String, CoordinationMetrics>,
    last_sequence: u64,
}

impl View for CoordinationState {
    type V = StateView;

    closed spec fn view(&self) -> StateView {
        StateView {
            scopes: self.scopes@.dom(),
            scope_sequences: self.scope_sequences@,
            activity: self.activity@,
            workspaces: self.workspaces@,
            participants: self.participants@,
            work: self.work@,
            signals: self.signals.deep_view(),
            resolved_requests: self.resolved_requests@.dom(),
            directions: self.directions@,
            metrics: self.metrics@,
            last_sequence: self.last_sequence,
        }
    }
}

impl CoordinationState {
    /// A state in which nothing is known yet.
    pub fn new() -> (r: Self)
        ensures
            r@ == StateView::empty(),
    {
        let r = CoordinationState {
            scopes: Table::new(),
            scope_sequences: Table::new(),
            activity: Table::new(),
            workspaces: Table::new(),
            participants: Table::new(),
            work: Table::new(),
            signals: Vec::new(),
            resolved_requests: Table::new(),
            directions: Table::new(),
            metrics: Table::new(),
            last_sequence: 0,
        };
        assert(r@ =~= StateView::empty());
        r
    }

    /// The sequence of the latest event.
    pub fn last_sequence(&self) -> (r: u64)
        ensures
            r == self@.last_sequence,
    {
        self.last_sequence
    }

    /// The counters of a scope.
    fn metrics_in(&self, scope: &String) -> (r: CoordinationMetrics)
        ensures
            r == self@.metrics_of(scope@),
    {
        match self.metrics.get(scope) {
            Some(metrics) => metrics.clone(),
            None => CoordinationMetrics { prevented_overlaps: 0, human_interventions: 0 },
        }
    }

    /// Whether the counter that an event raises has room, so that it can be applied.
    pub fn can_apply(&self, envelope: &EventEnvelope) -> (r: bool)
        ensures
            r == self@.has_room(envelope@),
    {
        match &envelope.event {
            EventKind::OverlapDetected { .. } => self.metrics_in(
                &envelope.scope,
            ).prevented_overlaps < u64::MAX,
            EventKind::HumanIntervened { .. } => self.metrics_in(
                &envelope.scope,
            ).human_interventions < u64::MAX,
            EventKind::DirectionIssued { .. } => self.metrics_in(
                &envelope.scope,
            ).human_interventions < u64::MAX,
            _ => true,
        }
    }

    /// Notes an event in the log.
    fn note(&mut self, envelope: &EventEnvelope)
        ensures
            final(self)@ == old(self)@.noted(envelope@),
    {
        if self.last_sequence < envelope.sequence {
            self.last_sequence = envelope.sequence;
        }
        self.scopes.insert(envelope.scope.clone(), ());
        self.scope_sequences.insert(envelope.scope.clone(), envelope.sequence);
        let renewal: bool = match &envelope.event {
            EventKind::PresenceRenewed { .. } => true,
            _ => false,
        };
        if !renewal {
            self.activity.insert(envelope.scope.clone(), envelope.sequence);
        }
        assert(self@ =~= old(self)@.noted(envelope@));
    }

    /// Counts a human intervention.
    fn count_intervention(&mut self, scope: &String)
        requires
            old(self)@.metrics_of(scope@).human_interventions < u64::MAX,
        ensures
            final(self)@ == old(self)@.intervened(scope@),
    {
        let mut metrics = self.metrics_in(scope);
        metrics.human_interventions = metrics.human_interventions + 1;
        self.metrics.insert(scope.clone(), metrics);
        assert(self@ =~= old(self)@.intervened(scope@));
    }

    /// Takes an event into the state.
    pub fn apply(&mut self, envelope: &EventEnvelope)
        requires
            old(self)@.has_room(envelope@),
        ensures
            final(self)@ == old(self)@.applied(envelope@),
    {
        let ghost start = self@;
        self.note(envelope);
        let ghost noted = self@;
        assert(noted.metrics_of(envelope.scope@) == start.metrics_of(envelope.scope@));
        match &envelope.event {
            EventKind::WorkspaceDefined { workspace } => {
                self.workspaces.insert(workspace.scope.clone(), workspace.clone());
            },
            EventKind::WorkspaceMetadataUpdated { workspace } => {
                self.workspaces.insert(workspace.scope.clone(), workspace.clone());
            },
            EventKind::ParticipantJoined { participant } => {
                self.participants.insert(participant.id, participant.clone());
            },
            EventKind::PresenceRenewed { participant_id, expires_at } => {
                let renewed: Option<Participant> = match self.participants.get(participant_id) {
                    Some(participant) => Some(participant.clone()),
                    None => None,
                };
                if let Some(mut participant) = renewed {
                    participant.expires_at = *expires_at;
                    self.participants.insert(*participant_id, participant);
                }
            },
            EventKind::ParticipantLeft { participant_id, .. } => {
                self.participants.remove(participant_id);
            },
            EventKind::WorkClaimed { work } => {
                self.work.insert(work.id, work.clone());
            },
            EventKind::OverlapDetected { .. } => {
                let mut metrics = self.metrics_in(&envelope.scope);
                metrics.prevented_overlaps = metrics.prevented_overlaps + 1;
                self.metrics.insert(envelope.scope.clone(), metrics);
            },
            EventKind::WorkReleased { work_id, .. } => {
                self.work.remove(work_id);
            },
            EventKind::SignalPublished { published } => {
                let ghost before = self.signals.deep_view();
                let stored = StoredSignal {
                    scope: envelope.scope.clone(),
                    event_id: envelope.event_id,
                    sequence: envelope.sequence,
                    published: published.clone(),
                };
                let ghost view = stored@;
                self.signals.push(stored);
                assert(self.signals.deep_view() == before.push(view));
            },
            EventKind::AttentionResolved { request_id, .. } => {
                self.resolved_requests.insert(*request_id, ());
            },
            EventKind::HumanIntervened { .. } => {
                self.count_intervention(&envelope.scope);
            },
            EventKind::DirectionIssued { direction } => {
                self.count_intervention(&envelope.scope);
                self.directions.insert(direction.id, direction.clone());
            },
            EventKind::DirectionDelivered { direction_id, participant_id, delivered_at } => {
                let delivered: Option<Direction> = match self.directions.get(direction_id) {
                    Some(direction) => Some(direction.clone()),
                    None => None,
                };
                if let Some(mut direction) = delivered {
                    let ghost before = direction@;
                    let delivery = DirectionDelivery {
                        participant_id: *participant_id,
                        delivered_at: *delivered_at,
                        consumed_at: None,
                    };
                    direction.deliveries.push(delivery);
                    assert(direction.deliveries.deep_view() == before.deliveries.push(delivery));
                    self.directions.insert(*direction_id, direction);
                }
            },
            EventKind::DirectionConsumed { direction_id, participant_id, consumed_at } => {
                let consumed: Option<Direction> = match self.directions.get(direction_id) {
                    Some(direction) => Some(
                        consumed_copy(direction, *participant_id, *consumed_at),
                    ),
                    None => None,
                };
                if let Some(direction) = consumed {
                    self.directions.insert(*direction_id, direction);
                }
            },
        }
        assert(self@ =~= start.applied(envelope@));
    }
}

impl Default for CoordinationState {
    /// A state in which nothing is known yet.
    fn default() -> (r: Self)
        ensures
            r@ == StateView::empty(),
    {
        CoordinationState::new()
    }
}

/// The position of the first delivery to a participant.
pub(crate) fn find_delivery(
    deliveries: &Vec<DirectionDelivery>,
    participant_id: ParticipantId,
) -> (r: Option<usize>)
    ensures
        match r {
            Some(i) => i < deliveries@.len() && deliveries@[i as int].participant_id
                == participant_id && model::first_delivery(deliveries.deep_view(), participant_id)
                == Some(i as int),
            None => model::first_delivery(deliveries.deep_view(), participant_id) is None,
        },
{
    let ghost all = deliveries.deep_view();
    let mut i: usize = 0;
    while i < deliveries.len()
        invariant
            i <= deliveries.len(),
            all == deliveries.deep_view(),
            model::first_delivery(all.take(i as int), participant_id) is None,
        decreases deliveries.len() - i,
    {
        assert(all.take(i + 1).drop_last() == all.take(i as int));
        if deliveries[i].participant_id == participant_id {
            proof {
                assert(model::first_delivery(all.take(i + 1), participant_id) == Some(i as int));
                lemma_first_delivery(all, i + 1, participant_id);
            }
            return Some(i);
        }
        i = i + 1;
    }
    assert(all.take(i as int) == all);
    None
}

proof fn lemma_first_delivery(
    deliveries: Seq<DirectionDelivery>,
    n: int,
    participant_id: ParticipantId,
)
    requires
        0 <= n <= deliveries.len(),
        model::first_delivery(deliveries.take(n), participant_id) is Some,
    ensures
        model::first_delivery(deliveries, participant_id) == model::first_delivery(
            deliveries.take(n),
            participant_id,
        ),
    decreases deliveries.len() - n,
{
    if n < deliveries.len() {
        assert(deliveries.take(n + 1).drop_last() == deliveries.take(n));
        lemma_first_delivery(deliveries, n + 1, participant_id);
    } else {
        assert(deliveries.take(n) == deliveries);
    }
}

/// A copy of a direction whose first delivery to a participant has been consumed.
fn consumed_copy(
    direction: &Direction,
    participant_id: ParticipantId,
    consumed_at: Timestamp,
) -> (r: Direction)
    ensures
        r@ == model::consumed_direction(direction@, participant_id, consumed_at),
{
    let mut r = direction.clone();
    let ghost before = r@;
    if let Some(i) = find_delivery(&r.deliveries, participant_id) {
        let mut delivery = r.deliveries[i].clone();
        delivery.consumed_at = Some(consumed_at);
        r.deliveries[i] = delivery;
        assert(r.deliveries.deep_view() == before.deliveries.update(i as int, delivery));
    }
    r
}

} // verus!
