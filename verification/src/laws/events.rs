//! Events: what each part of the state takes from them.
use vstd::prelude::*;

use crate::model::{StateView, StoredSignalView};
use crate::protocol::{
    DirectionDelivery, DirectionId, EventEnvelopeView, EventKindView, ParticipantId, WorkId,
};

verus! {

/// Who is present changes by joining, renewing and leaving alone: a newcomer is there as it was
/// announced, a renewal moves the end of one lease, and who left is gone.
pub proof fn presence_comes_from_its_events(
    state: StateView,
    envelope: EventEnvelopeView,
    id: ParticipantId,
)
    ensures
        ({
            let before = state.participants;
            let after = state.applied(envelope).participants;
            match envelope.event {
                EventKindView::ParticipantJoined { participant } => if participant.id == id {
                    after.contains_key(id) && after[id] == participant
                } else {
                    after.contains_key(id) == before.contains_key(id) && after[id] == before[id]
                },
                EventKindView::ParticipantLeft { participant_id, .. } => if participant_id == id {
                    !after.contains_key(id)
                } else {
                    after.contains_key(id) == before.contains_key(id) && (before.contains_key(id)
                        ==> after[id] == before[id])
                },
                EventKindView::PresenceRenewed { participant_id, expires_at } => {
                    &&& after.contains_key(id) == before.contains_key(id)
                    &&& before.contains_key(id) ==> {
                        &&& after[id].id == before[id].id
                        &&& after[id].scope == before[id].scope
                        &&& after[id].name == before[id].name
                        &&& after[id].manifest == before[id].manifest
                        &&& after[id].joined_at == before[id].joined_at
                        &&& after[id].expires_at == if participant_id == id {
                            expires_at
                        } else {
                            before[id].expires_at
                        }
                    }
                },
                _ => after == before,
            }
        }),
{
}

/// Work changes by claims and releases alone: a claim is there as it was made, and what was released
/// is gone.
pub proof fn work_comes_from_its_events(state: StateView, envelope: EventEnvelopeView, id: WorkId)
    ensures
        ({
            let before = state.work;
            let after = state.applied(envelope).work;
            match envelope.event {
                EventKindView::WorkClaimed { work } => if work.id == id {
                    after.contains_key(id) && after[id] == work
                } else {
                    after.contains_key(id) == before.contains_key(id) && after[id] == before[id]
                },
                EventKindView::WorkReleased { work_id, .. } => if work_id == id {
                    !after.contains_key(id)
                } else {
                    after.contains_key(id) == before.contains_key(id) && (before.contains_key(id)
                        ==> after[id] == before[id])
                },
                _ => after == before,
            }
        }),
{
}

/// A workspace changes by its definition and its refreshes alone, and is known as the last of them
/// gave it.
pub proof fn workspaces_come_from_their_events(
    state: StateView,
    envelope: EventEnvelopeView,
    scope: Seq<char>,
)
    ensures
        ({
            let before = state.workspaces;
            let after = state.applied(envelope).workspaces;
            let given = match envelope.event {
                EventKindView::WorkspaceDefined { workspace } => Some(workspace),
                EventKindView::WorkspaceMetadataUpdated { workspace } => Some(workspace),
                _ => None,
            };
            match given {
                Some(workspace) => if workspace.scope == scope {
                    after.contains_key(scope) && after[scope] == workspace
                } else {
                    after.contains_key(scope) == before.contains_key(scope) && after[scope]
                        == before[scope]
                },
                None => after == before,
            }
        }),
{
}

/// Signals are added at the end, with their scope, event and sequence, and never change.
pub proof fn signals_come_from_their_events(state: StateView, envelope: EventEnvelopeView)
    ensures
        ({
            let before = state.signals;
            let after = state.applied(envelope).signals;
            match envelope.event {
                EventKindView::SignalPublished { published } => {
                    &&& after.len() == before.len() + 1
                    &&& forall|i: int| 0 <= i < before.len() ==> #[trigger] after[i] == before[i]
                    &&& after[before.len() as int] == StoredSignalView {
                        scope: envelope.scope,
                        event_id: envelope.event_id,
                        sequence: envelope.sequence,
                        published,
                    }
                },
                _ => after == before,
            }
        }),
{
}

/// A request is resolved by the event that says so and stays resolved.
pub proof fn resolutions_come_from_their_events(state: StateView, envelope: EventEnvelopeView)
    ensures
        match envelope.event {
            EventKindView::AttentionResolved { request_id, .. } => state.applied(
                envelope,
            ).resolved_requests == state.resolved_requests.insert(request_id),
            _ => state.applied(envelope).resolved_requests == state.resolved_requests,
        },
{
}

/// A direction is known as it was issued; from then on only its deliveries change: one is added, or
/// the first to a participant is marked as consumed.
pub proof fn directions_come_from_their_events(
    state: StateView,
    envelope: EventEnvelopeView,
    id: DirectionId,
)
    ensures
        ({
            let before = state.directions;
            let after = state.applied(envelope).directions;
            match envelope.event {
                EventKindView::DirectionIssued { direction } => if direction.id == id {
                    after.contains_key(id) && after[id] == direction
                } else {
                    after.contains_key(id) == before.contains_key(id) && after[id] == before[id]
                },
                EventKindView::DirectionDelivered { direction_id, participant_id, delivered_at } => {
                    &&& after.contains_key(id) == before.contains_key(id)
                    &&& before.contains_key(id) ==> {
                        &&& after[id].id == before[id].id
                        &&& after[id].scope == before[id].scope
                        &&& after[id].message == before[id].message
                        &&& after[id].author == before[id].author
                        &&& after[id].created_at == before[id].created_at
                        &&& after[id].target == before[id].target
                        &&& after[id].deliveries == if direction_id == id {
                            before[id].deliveries + seq![
                                DirectionDelivery {
                                    participant_id,
                                    delivered_at,
                                    consumed_at: None,
                                },
                            ]
                        } else {
                            before[id].deliveries
                        }
                    }
                },
                EventKindView::DirectionConsumed { direction_id, participant_id, consumed_at } => {
                    &&& after.contains_key(id) == before.contains_key(id)
                    &&& before.contains_key(id) ==> {
                        &&& after[id].id == before[id].id
                        &&& after[id].scope == before[id].scope
                        &&& after[id].message == before[id].message
                        &&& after[id].author == before[id].author
                        &&& after[id].created_at == before[id].created_at
                        &&& after[id].target == before[id].target
                        &&& after[id].deliveries.len() == before[id].deliveries.len()
                        &&& forall|k: int|
                            0 <= k < before[id].deliveries.len() ==> {
                                let was = #[trigger] before[id].deliveries[k];
                                let is = after[id].deliveries[k];
                                &&& is.participant_id == was.participant_id
                                &&& is.delivered_at == was.delivered_at
                                &&& is.consumed_at == if direction_id == id && was.participant_id
                                    == participant_id && (forall|j: int|
                                    0 <= j < k ==> (
                                    #[trigger] before[id].deliveries[j]).participant_id
                                        != participant_id) {
                                    Some(consumed_at)
                                } else {
                                    was.consumed_at
                                }
                            }
                    }
                },
                _ => after == before,
            }
        }),
{
    if let EventKindView::DirectionDelivered { participant_id, delivered_at, .. } = envelope.event {
        let given = DirectionDelivery { participant_id, delivered_at, consumed_at: None };
        assert(state.directions[id].deliveries.push(given) =~= state.directions[id].deliveries
            + seq![given]);
    }
    if let EventKindView::DirectionConsumed { participant_id, .. } = envelope.event {
        crate::laws::directions::lemma_first_delivery(
            state.directions[id].deliveries,
            participant_id,
        );
        let d = state.directions[id].deliveries;
        assert forall|k: int|
            0 <= k < d.len() && (#[trigger] d[k]).participant_id == participant_id && (forall|j: int|
                0 <= j < k ==> (#[trigger] d[j]).participant_id != participant_id) implies
            crate::model::first_delivery(d, participant_id) == Some(k) by {
            let first = crate::model::first_delivery(d, participant_id)->0;
            if first < k {
                assert(d[first].participant_id != participant_id);
            }
        }
    }
}

/// The counters of a scope count its prevented overlaps and its human interventions, one by one, and
/// stand at zero before the first. The one that an event raises has room.
pub proof fn counters_count_their_events(
    state: StateView,
    envelope: EventEnvelopeView,
    scope: Seq<char>,
)
    requires
        state.has_room(envelope),
    ensures
        ({
            let before = state.metrics_of(scope);
            let after = state.applied(envelope).metrics_of(scope);
            &&& after.prevented_overlaps == before.prevented_overlaps + if envelope.scope == scope
                && envelope.event is OverlapDetected {
                1int
            } else {
                0
            }
            &&& after.human_interventions == before.human_interventions + if envelope.scope == scope
                && (envelope.event is DirectionIssued || envelope.event is HumanIntervened) {
                1int
            } else {
                0
            }
        }),
        !state.metrics.contains_key(scope) ==> state.metrics_of(scope).prevented_overlaps == 0
            && state.metrics_of(scope).human_interventions == 0,
        state.metrics.contains_key(scope) ==> state.metrics_of(scope) == state.metrics[scope],
{
}

/// Every event makes its scope known, with its sequence as the last there; all but renewals of
/// presence count as activity. The last sequence of all is the highest so far.
pub proof fn events_leave_their_mark(
    state: StateView,
    envelope: EventEnvelopeView,
    scope: Seq<char>,
)
    ensures
        ({
            let after = state.applied(envelope);
            &&& after.scopes == state.scopes.insert(envelope.scope)
            &&& after.last_sequence == if envelope.sequence > state.last_sequence {
                envelope.sequence
            } else {
                state.last_sequence
            }
            &&& envelope.scope == scope ==> after.scope_sequences.contains_key(scope)
                && after.scope_sequences[scope] == envelope.sequence
            &&& envelope.scope != scope ==> after.scope_sequences.contains_key(scope)
                == state.scope_sequences.contains_key(scope) && after.scope_sequences[scope]
                == state.scope_sequences[scope]
            &&& envelope.scope == scope && !(envelope.event is PresenceRenewed)
                ==> after.activity.contains_key(scope) && after.activity[scope] == envelope.sequence
            &&& envelope.scope != scope || envelope.event is PresenceRenewed
                ==> after.activity.contains_key(scope) == state.activity.contains_key(scope)
                && after.activity[scope] == state.activity[scope]
        }),
{
}

} // verus!
