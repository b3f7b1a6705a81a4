//! Commands and the events that they lead to.
use vstd::prelude::*;

use crate::coordination::DecisionContext;
use crate::model;
use crate::model::StateView;
use crate::ordered;
use crate::protocol::{
    CommandView, DirectionId, DirectionView, EventEnvelopeView, EventKindView, ReleaseReason,
    WorkClaimView, WorkId,
};

verus! {

/// Whether a command can lead to an event.
pub open spec fn leads_to(command: CommandView, event: EventKindView) -> bool {
    match command {
        CommandView::DefineWorkspace { .. } => event is WorkspaceDefined,
        CommandView::RefreshWorkspaceMetadata { .. } => event is WorkspaceMetadataUpdated,
        CommandView::Join { .. } => event is ParticipantJoined,
        CommandView::RenewPresence { .. } => event is PresenceRenewed,
        CommandView::ClaimWork { .. } => event is WorkClaimed || event is OverlapDetected,
        CommandView::PublishSignal { .. } => event is SignalPublished || event is WorkReleased,
        CommandView::ResolveAttention { .. } => event is AttentionResolved,
        CommandView::Leave { .. } => event is WorkReleased || event is ParticipantLeft,
        CommandView::Intervene { .. } => event is DirectionIssued,
        CommandView::DeliverDirections { .. } => event is DirectionDelivered,
        CommandView::ConsumeDirection { .. } => event is DirectionConsumed,
    }
}

/// A command leads to no events but those of its own kind.
pub proof fn commands_lead_to_their_events(
    state: StateView,
    command: CommandView,
    context: DecisionContext,
    envelopes: Seq<EventEnvelopeView>,
)
    requires
        model::carries(envelopes, state.decided(command, context).events()),
    ensures
        forall|i: int|
            0 <= i < envelopes.len() ==> leads_to(command, (#[trigger] envelopes[i]).event),
{
    let events = state.decided(command, context).events();
    assert forall|i: int| 0 <= i < envelopes.len() implies leads_to(
        command,
        (#[trigger] envelopes[i]).event,
    ) by {
        assert(events.contains(events[i]));
        match command {
            CommandView::Leave { participant_id } => {
                let all = ordered::in_order::<WorkId, WorkClaimView>(state.work);
                let f = StateView::release_of(
                    state.participants[participant_id],
                    ReleaseReason::ParticipantLeft,
                );
                if i < all.filter_map(f).len() {
                    assert(all.filter_map(f)[i] == events[i]);
                    all.lemma_filter_map_contains(f, events[i]);
                }
            },
            CommandView::DeliverDirections { participant_id } => {
                let all = ordered::in_order::<DirectionId, DirectionView>(state.directions);
                let f = state.delivery_of(
                    state.participants[participant_id].scope,
                    participant_id,
                    context.now,
                );
                all.lemma_filter_map_contains(f, events[i]);
            },
            _ => {},
        }
    }
}

} // verus!
