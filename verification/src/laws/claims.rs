//! Claims never overlap, and all work has an owner.
use vstd::prelude::*;

use crate::coordination::DecisionContext;
use crate::laws::commands;
use crate::laws::presence;
use crate::laws::replay;
use crate::model;
use crate::model::StateView;
use crate::ordered;
use crate::protocol::{
    CommandView, EventEnvelopeView, EventKindView, LeaveReason, ParticipantId, WorkClaimView,
    WorkId,
};
use crate::resources;
use crate::sequences;
use crate::text;

verus! {

/// Where no conflict is found, no claim of the scope overlaps the resources.
pub proof fn no_conflict_no_overlap(state: StateView, scope: Seq<char>, wanted: Seq<Seq<char>>)
    requires
        state.well_formed(),
    ensures
        state.conflicts(scope, wanted).len() == 0 <==> forall|id: WorkId| #[trigger]
            state.work.contains_key(id) && state.work[id].scope == scope
                ==> !resources::lists_overlap(wanted, state.work[id].resources),
{
    let all = ordered::in_order::<WorkId, WorkClaimView>(state.work);
    let keys = ordered::listing::<WorkId>(state.work.dom());
    let f = StateView::conflict_with(scope, wanted);
    ordered::lemma_in_order::<WorkId, WorkClaimView>(state.work);
    if state.conflicts(scope, wanted).len() == 0 {
        assert forall|id: WorkId| #[trigger]
            state.work.contains_key(id) && state.work[id].scope
                == scope implies !resources::lists_overlap(wanted, state.work[id].resources) by {
            assert(keys.contains(id));
            let i = keys.index_of(id);
            assert(all[i] == state.work[id]);
            if resources::lists_overlap(wanted, state.work[id].resources) {
                sequences::lemma_filter_map_has(all, f, i);
            }
        }
    }
    if state.conflicts(scope, wanted).len() > 0 {
        let c = state.conflicts(scope, wanted)[0];
        assert(all.filter_map(f).contains(c));
        all.lemma_filter_map_contains(f, c);
        let w = choose|w: WorkClaimView| #[trigger] all.contains(w) && f(w) == Some(c);
        let i = all.index_of(w);
        assert(all[i] == state.work[keys[i]]);
        assert(state.work.contains_key(keys[i]));
    }
}

/// Whether an event leaves the participants and the work alone.
spec fn leaves_claims(event: EventKindView) -> bool {
    !(event is ParticipantJoined || event is PresenceRenewed || event is ParticipantLeft
        || event is WorkClaimed || event is WorkReleased)
}

proof fn lemma_leaves_claims(state: StateView, envelopes: Seq<EventEnvelopeView>)
    requires
        forall|i: int| 0 <= i < envelopes.len() ==> leaves_claims(#[trigger] envelopes[i].event),
    ensures
        state.replayed(envelopes).participants == state.participants,
        state.replayed(envelopes).work == state.work,
    decreases envelopes.len(),
{
    if envelopes.len() > 0 {
        let init = envelopes.drop_last();
        assert forall|i: int| 0 <= i < init.len() implies leaves_claims(
            #[trigger] init[i].event,
        ) by {
            assert(init[i] == envelopes[i]);
        }
        lemma_leaves_claims(state, init);
        assert(leaves_claims(envelopes[envelopes.len() - 1].event));
    }
}

/// No decision lets two claims of a scope overlap: where claims exclude each other, they still do
/// once the events of a decision are in the log.
pub proof fn decisions_keep_claims_exclusive(
    state: StateView,
    command: CommandView,
    context: DecisionContext,
    envelopes: Seq<EventEnvelopeView>,
)
    requires
        state.well_formed(),
        state.exclusive(),
        model::carries(envelopes, state.decided(command, context).events()),
    ensures
        state.replayed(envelopes).exclusive(),
{
    let events = state.decided(command, context).events();
    match command {
        CommandView::ClaimWork { participant_id, summary, resources: wanted } => {
            if state.decided(command, context) is Accepted {
                replay::replay_of_one(state, envelopes);
                let scope = state.participants[participant_id].scope;
                let paths = resources::normalized(wanted, context.paths)->Ok_0;
                no_conflict_no_overlap(state, scope, paths);
                let after = state.applied(envelopes[0]);
                assert forall|a: WorkId, b: WorkId| #[trigger]
                    after.work.contains_key(a) && #[trigger] after.work.contains_key(b) && a != b
                        && after.work[a].scope == after.work[b].scope implies !resources::lists_overlap(
                    after.work[a].resources,
                    after.work[b].resources,
                ) by {
                    if a == context.work_id {
                        assert(state.work.contains_key(b));
                    } else if b == context.work_id {
                        assert(state.work.contains_key(a));
                        resources::overlap_is_symmetric(
                            after.work[a].resources,
                            after.work[b].resources,
                        );
                    } else {
                        assert(state.work.contains_key(a) && state.work.contains_key(b));
                    }
                }
            } else {
                lemma_leaves_claims(state, envelopes);
            }
        },
        CommandView::Leave { participant_id } => {
            if state.decided(command, context) is Accepted {
                presence::departure_releases_all(
                    state,
                    participant_id,
                    LeaveReason::Graceful,
                    envelopes,
                );
            }
        },
        CommandView::PublishSignal { .. } => {
            lemma_without_claims(state, envelopes);
        },
        CommandView::Join { .. } => {
            lemma_without_claims(state, envelopes);
        },
        CommandView::RenewPresence { .. } => {
            lemma_without_claims(state, envelopes);
        },
        CommandView::DeliverDirections { .. } => {
            commands::commands_lead_to_their_events(state, command, context, envelopes);
            lemma_leaves_claims(state, envelopes);
        },
        _ => {
            lemma_leaves_claims(state, envelopes);
        },
    }
}

/// Only a new claim can overlap another.
proof fn lemma_without_claims(state: StateView, envelopes: Seq<EventEnvelopeView>)
    requires
        state.exclusive(),
        forall|i: int| 0 <= i < envelopes.len() ==> !((#[trigger] envelopes[i]).event is WorkClaimed),
    ensures
        state.replayed(envelopes).exclusive(),
    decreases envelopes.len(),
{
    if envelopes.len() > 0 {
        let init = envelopes.drop_last();
        assert forall|i: int| 0 <= i < init.len() implies !((#[trigger] init[i]).event is WorkClaimed) by {
            assert(init[i] == envelopes[i]);
        }
        lemma_without_claims(state, init);
        let before = state.replayed(init);
        let after = state.replayed(envelopes);
        assert(!(envelopes[envelopes.len() - 1].event is WorkClaimed));
        assert forall|id: WorkId| #[trigger] after.work.contains_key(id) implies before.work.contains_key(
            id,
        ) && after.work[id] == before.work[id] by {}
    }
}

/// Every decision leaves all work with an owner in its scope, provided that a newcomer's identity
/// is new.
pub proof fn decisions_keep_work_owned(
    state: StateView,
    command: CommandView,
    context: DecisionContext,
    envelopes: Seq<EventEnvelopeView>,
)
    requires
        state.well_formed(),
        state.owned(),
        command is Join ==> !state.participants.contains_key(context.participant_id),
        model::carries(envelopes, state.decided(command, context).events()),
    ensures
        state.replayed(envelopes).owned(),
{
    let events = state.decided(command, context).events();
    match command {
        CommandView::ClaimWork { participant_id, .. } => {
            if state.decided(command, context) is Accepted {
                replay::replay_of_one(state, envelopes);
            } else {
                lemma_leaves_claims(state, envelopes);
            }
        },
        CommandView::Leave { participant_id } => {
            if state.decided(command, context) is Accepted {
                presence::departure_releases_all(
                    state,
                    participant_id,
                    LeaveReason::Graceful,
                    envelopes,
                );
            }
        },
        CommandView::PublishSignal { .. } => {
            if envelopes.len() == 2 {
                let init = envelopes.drop_last();
                replay::replay_of_one(state, init);
                assert(init[0] == envelopes[0]);
                assert(envelopes[1].event is WorkReleased);
            } else if envelopes.len() == 1 {
                replay::replay_of_one(state, envelopes);
            }
        },
        CommandView::Join { .. } => {
            if envelopes.len() == 1 {
                replay::replay_of_one(state, envelopes);
            }
        },
        CommandView::RenewPresence { .. } => {
            if envelopes.len() == 1 {
                replay::replay_of_one(state, envelopes);
            }
        },
        CommandView::DeliverDirections { .. } => {
            commands::commands_lead_to_their_events(state, command, context, envelopes);
            lemma_leaves_claims(state, envelopes);
        },
        _ => {
            lemma_leaves_claims(state, envelopes);
        },
    }
}

/// Of two claims that overlap only one is granted: once the first is in the log, the second comes to
/// a conflict with it, whoever asks.
pub proof fn overlapping_claims_have_one_winner(
    state: StateView,
    first: ParticipantId,
    first_summary: Seq<char>,
    first_resources: Seq<Seq<char>>,
    first_context: DecisionContext,
    envelopes: Seq<EventEnvelopeView>,
    second: ParticipantId,
    second_summary: Seq<char>,
    second_resources: Seq<Seq<char>>,
    second_context: DecisionContext,
)
    requires
        state.well_formed(),
        state.claimed(first, first_summary, first_resources, first_context) is Accepted,
        model::carries(
            envelopes,
            state.claimed(first, first_summary, first_resources, first_context).events(),
        ),
        state.live(second, second_context.now) is Some,
        state.participants[second].scope == state.participants[first].scope,
        !text::is_blank(second_summary),
        resources::normalized(second_resources, second_context.paths) is Ok,
        resources::lists_overlap(
            resources::normalized(second_resources, second_context.paths)->Ok_0,
            resources::normalized(first_resources, first_context.paths)->Ok_0,
        ),
    ensures
        state.replayed(envelopes).claimed(
            second,
            second_summary,
            second_resources,
            second_context,
        ) is Conflict,
{
    replay::replay_of_one(state, envelopes);
    replay::replay_keeps_form(state, envelopes);
    let after = state.replayed(envelopes);
    let scope = state.participants[second].scope;
    let paths = resources::normalized(second_resources, second_context.paths)->Ok_0;
    no_conflict_no_overlap(after, scope, paths);
    assert(after.work.contains_key(first_context.work_id));
}

/// A conflict grants nothing and is counted once.
pub proof fn conflict_grants_nothing(
    state: StateView,
    command: CommandView,
    context: DecisionContext,
    envelopes: Seq<EventEnvelopeView>,
)
    requires
        state.decided(command, context) is Conflict,
        model::carries(envelopes, state.decided(command, context).events()),
    ensures
        state.replayed(envelopes).work == state.work,
        state.replayed(envelopes).participants == state.participants,
        state.has_room(envelopes[0]) ==> state.replayed(envelopes).metrics_of(
            envelopes[0].scope,
        ).prevented_overlaps == state.metrics_of(envelopes[0].scope).prevented_overlaps + 1,
{
    replay::replay_of_one(state, envelopes);
}

} // verus!
