//! Scopes: what happens in one leaves all others as they are.
use vstd::prelude::*;

use crate::coordination::{DecisionContext, PendingEventView};
use crate::laws::attention;
use crate::laws::commands;
use crate::laws::presence;
use crate::laws::replay;
use crate::laws::soundness;
use crate::model;
use crate::model::StateView;
use crate::ordered;
use crate::protocol::{
    CommandView, DirectionId, DirectionView, EventEnvelopeView, EventKindView, LeaveReason,
    ParticipantId, ParticipantView, PublishedSignalView, WorkClaimView, WorkId,
};
use crate::text;
use crate::time::Timestamp;

verus! {

/// Whether an event is about its own scope: what it defines, brings in, changes, takes out,
/// resolves or answers belongs there.
pub open spec fn stays_in_scope(state: StateView, envelope: EventEnvelopeView) -> bool {
    let scope = envelope.scope;
    match envelope.event {
        EventKindView::WorkspaceDefined { workspace } => workspace.scope == scope,
        EventKindView::WorkspaceMetadataUpdated { workspace } => workspace.scope == scope,
        EventKindView::ParticipantJoined { participant } => {
            &&& participant.scope == scope
            &&& !state.participants.contains_key(participant.id)
        },
        EventKindView::PresenceRenewed { participant_id, .. } => {
            state.participants.contains_key(participant_id) ==> state.participants[
                participant_id
            ].scope == scope
        },
        EventKindView::ParticipantLeft { participant_id, .. } => {
            state.participants.contains_key(participant_id) ==> state.participants[
                participant_id
            ].scope == scope
        },
        EventKindView::WorkClaimed { work } => {
            &&& work.scope == scope
            &&& !state.work.contains_key(work.id)
        },
        EventKindView::WorkReleased { work_id, .. } => {
            state.work.contains_key(work_id) ==> state.work[work_id].scope == scope
        },
        EventKindView::AttentionResolved { request_id, .. } => forall|i: int|
            0 <= i < state.signals.len() && (#[trigger] state.signals[i]).makes(request_id)
                ==> state.signals[i].scope == scope,
        EventKindView::DirectionIssued { direction } => {
            &&& direction.scope == scope
            &&& !state.directions.contains_key(direction.id)
            &&& forall|i: int|
                0 <= i < state.signals.len() && (#[trigger] state.signals[i]).answered_by(
                    direction.target,
                ) ==> state.signals[i].scope == scope
        },
        _ => true,
    }
}

proof fn lemma_same_part<K: ordered::Key, B>(
    before: Map<<K as DeepView>::V, B>,
    after: Map<<K as DeepView>::V, B>,
    p: spec_fn(B) -> bool,
)
    requires
        before.dom().finite(),
        after.dom().finite(),
        forall|k: <K as DeepView>::V| #[trigger]
            before.contains_key(k) && p(before[k]) ==> after.contains_key(k) && after[k]
                == before[k],
        forall|k: <K as DeepView>::V| #[trigger]
            after.contains_key(k) && p(after[k]) ==> before.contains_key(k) && before[k]
                == after[k],
    ensures
        ordered::in_order::<K, B>(after).filter(p) == ordered::in_order::<K, B>(before).filter(p),
{
    ordered::lemma_in_order_filter::<K, B>(before, p);
    ordered::lemma_in_order_filter::<K, B>(after, p);
    assert(before.restrict(Set::new(|k: <K as DeepView>::V| before.contains_key(k) && p(before[k])))
        =~= after.restrict(
        Set::new(|k: <K as DeepView>::V| after.contains_key(k) && p(after[k])),
    ));
}

/// An event that is about its own scope changes nothing in any other.
pub proof fn events_change_their_scope_only(
    state: StateView,
    envelope: EventEnvelopeView,
    scope: Seq<char>,
)
    requires
        state.well_formed(),
        stays_in_scope(state, envelope),
        scope != envelope.scope,
    ensures
        state.applied(envelope).snapshot(scope) == state.snapshot(scope),
{
    let after = state.applied(envelope);
    lemma_same_part::<ParticipantId, ParticipantView>(
        state.participants,
        after.participants,
        model::participant_in(scope),
    );
    lemma_same_part::<WorkId, WorkClaimView>(state.work, after.work, model::work_in(scope));
    attention::lemma_attention_elsewhere(state, envelope, scope);
    if envelope.event is SignalPublished {
        assert(after.signals.drop_last() == state.signals);
        assert(after.signals.last() == attention::stored(envelope));
        assert(after.signals.filter_map(model::signal_in(scope)) == state.signals.filter_map(
            model::signal_in(scope),
        ));
    }
}

/// In its own scope an event is the last that is known of, and the signals are those from before,
/// with the one that it publishes behind them.
pub proof fn events_extend_their_scope(state: StateView, envelope: EventEnvelopeView)
    ensures
        state.applied(envelope).snapshot(envelope.scope).last_sequence == envelope.sequence,
        state.applied(envelope).snapshot(envelope.scope).signals == state.snapshot(
            envelope.scope,
        ).signals + (match envelope.event {
            EventKindView::SignalPublished { published } => seq![published],
            _ => Seq::<PublishedSignalView>::empty(),
        }),
{
    let after = state.applied(envelope);
    if envelope.event is SignalPublished {
        assert(after.signals.drop_last() == state.signals);
        assert(after.signals.last() == attention::stored(envelope));
    } else {
        assert(after.signals == state.signals);
    }
}

/// Whether the identity that a command may give away is new.
pub open spec fn gives_new_identity(
    state: StateView,
    command: CommandView,
    context: DecisionContext,
) -> bool {
    &&& command is Join ==> !state.participants.contains_key(context.participant_id)
    &&& command is ClaimWork ==> !state.work.contains_key(context.work_id)
    &&& command is Intervene ==> !state.directions.contains_key(context.direction_id)
}

proof fn lemma_one_source(state: StateView, i: int, j: int)
    requires
        attention::requests_are_distinct(state),
        0 <= i < state.signals.len(),
        0 <= j < state.signals.len(),
        state.signals[i].identity() is Some,
        state.signals[j].makes(state.signals[i].identity()->0.request_id),
    ensures
        i == j,
{
    if i < j {
        assert(!state.signals[j].makes(state.signals[i].identity()->0.request_id));
    } else if j < i {
        assert(!state.signals[i].makes(state.signals[j].identity()->0.request_id));
    }
}

proof fn lemma_single_event_stays(
    state: StateView,
    command: CommandView,
    context: DecisionContext,
    envelope: EventEnvelopeView,
)
    requires
        soundness::sound(state),
        gives_new_identity(state, command, context),
        !(command is PublishSignal) && !(command is Leave) && !(command is DeliverDirections),
        state.decided(command, context).events().len() == 1,
        envelope.scope == state.decided(command, context).events()[0].scope,
        envelope.event == state.decided(command, context).events()[0].event,
    ensures
        stays_in_scope(state, envelope),
{
    match command {
        CommandView::ResolveAttention { request_id, .. } => {
            attention::lemma_first_request(state.signals, request_id);
            let k = model::first_request(state.signals, request_id)->0;
            assert forall|i: int|
                0 <= i < state.signals.len() && (#[trigger] state.signals[i]).makes(
                    request_id,
                ) implies state.signals[i].scope == envelope.scope by {
                lemma_one_source(state, i, k);
            }
        },
        CommandView::Intervene { scope, target, .. } => {
            if let Some(named) = target {
                let k = choose|k: int|
                    0 <= k < state.signals.len() && model::names(
                        scope,
                        named,
                        #[trigger] state.signals[k],
                    ) && !state.settled(state.signals[k]);
                assert forall|i: int|
                    0 <= i < state.signals.len() && (#[trigger] state.signals[i]).answered_by(
                        target,
                    ) implies state.signals[i].scope == envelope.scope by {
                    lemma_one_source(state, i, k);
                }
            }
        },
        _ => {},
    }
}

proof fn lemma_departures_stay(
    state: StateView,
    envelopes: Seq<EventEnvelopeView>,
    i: int,
    participant: ParticipantView,
    reason: LeaveReason,
    event: PendingEventView,
)
    requires
        state.well_formed(),
        state.owned(),
        presence::only_departures(envelopes),
        0 <= i < envelopes.len(),
        state.participants.contains_key(participant.id),
        state.participants[participant.id] == participant,
        state.departure(participant, reason).contains(event),
        envelopes[i].scope == event.scope,
        envelopes[i].event == event.event,
    ensures
        stays_in_scope(state.replayed(envelopes.take(i)), envelopes[i]),
{
    let first = envelopes.take(i);
    assert forall|k: int| 0 <= k < first.len() implies (#[trigger] first[k]).event is WorkReleased
        || first[k].event is ParticipantLeft by {
        assert(first[k] == envelopes[k]);
    }
    presence::departures_remove_what_they_name(state, first);
    presence::lemma_departure(state, participant, reason, event);
}

proof fn lemma_decision_stays(
    state: StateView,
    command: CommandView,
    context: DecisionContext,
    envelopes: Seq<EventEnvelopeView>,
    i: int,
)
    requires
        soundness::sound(state),
        gives_new_identity(state, command, context),
        model::carries(envelopes, state.decided(command, context).events()),
        0 <= i < envelopes.len(),
    ensures
        stays_in_scope(state.replayed(envelopes.take(i)), envelopes[i]),
{
    let events = state.decided(command, context).events();
    let first = envelopes.take(i);
    commands::commands_lead_to_their_events(state, command, context, envelopes);
    match command {
        CommandView::PublishSignal { .. } => {
            if i == 1 {
                replay::replay_of_one(state, first);
                assert(first[0] == envelopes[0]);
                assert(envelopes[0].event is SignalPublished);
                assert(envelopes[1].event == events[1].event);
            }
        },
        CommandView::Leave { participant_id } => {
            assert forall|k: int| 0 <= k < envelopes.len() implies (
            #[trigger] envelopes[k]).event is WorkReleased || envelopes[k].event
                is ParticipantLeft by {}
            assert(events.contains(events[i]));
            lemma_departures_stay(
                state,
                envelopes,
                i,
                state.participants[participant_id],
                LeaveReason::Graceful,
                events[i],
            );
        },
        CommandView::DeliverDirections { .. } => {},
        _ => {
            assert(first == Seq::<EventEnvelopeView>::empty());
            lemma_single_event_stays(state, command, context, envelopes[i]);
        },
    }
}

proof fn lemma_run_elsewhere(
    state: StateView,
    envelopes: Seq<EventEnvelopeView>,
    scope: Seq<char>,
)
    requires
        state.well_formed(),
        forall|i: int|
            0 <= i < envelopes.len() ==> stays_in_scope(
                state.replayed(envelopes.take(i)),
                #[trigger] envelopes[i],
            ),
    ensures
        forall|i: int|
            0 <= i < envelopes.len() ==> ((#[trigger] envelopes[i]).scope != scope
                ==> state.replayed(envelopes.take(i + 1)).snapshot(scope) == state.replayed(
                envelopes.take(i),
            ).snapshot(scope)),
        (forall|i: int| 0 <= i < envelopes.len() ==> (#[trigger] envelopes[i]).scope != scope)
            ==> state.replayed(envelopes).snapshot(scope) == state.snapshot(scope),
    decreases envelopes.len(),
{
    assert forall|i: int| 0 <= i < envelopes.len() implies ((#[trigger] envelopes[i]).scope != scope
        ==> state.replayed(envelopes.take(i + 1)).snapshot(scope) == state.replayed(
        envelopes.take(i),
    ).snapshot(scope)) by {
        let before = state.replayed(envelopes.take(i));
        assert(envelopes.take(i + 1).drop_last() == envelopes.take(i));
        assert(envelopes.take(i + 1).last() == envelopes[i]);
        replay::replay_keeps_form(state, envelopes.take(i));
        if envelopes[i].scope != scope {
            events_change_their_scope_only(before, envelopes[i], scope);
        }
    }
    if envelopes.len() > 0 && (forall|i: int|
        0 <= i < envelopes.len() ==> (#[trigger] envelopes[i]).scope != scope) {
        let init = envelopes.drop_last();
        let n = init.len() as int;
        assert forall|i: int| 0 <= i < init.len() implies stays_in_scope(
            state.replayed(init.take(i)),
            #[trigger] init[i],
        ) by {
            assert(init[i] == envelopes[i]);
            assert(init.take(i) == envelopes.take(i));
        }
        assert forall|i: int| 0 <= i < init.len() implies (#[trigger] init[i]).scope != scope by {
            assert(init[i] == envelopes[i]);
        }
        lemma_run_elsewhere(state, init, scope);
        assert(envelopes[n].scope != scope);
        assert(envelopes.take(n) == init);
        assert(envelopes.take(n + 1) == envelopes);
    }
}

/// Every event of a decision is about its own scope: it changes nothing in any other, nor does the
/// decision as a whole. The identity that the decision gives away is new.
pub proof fn decisions_change_their_scope_only(
    state: StateView,
    command: CommandView,
    context: DecisionContext,
    envelopes: Seq<EventEnvelopeView>,
    scope: Seq<char>,
)
    requires
        soundness::sound(state),
        gives_new_identity(state, command, context),
        model::carries(envelopes, state.decided(command, context).events()),
    ensures
        forall|i: int|
            0 <= i < envelopes.len() ==> stays_in_scope(
                state.replayed(envelopes.take(i)),
                #[trigger] envelopes[i],
            ),
        forall|i: int|
            0 <= i < envelopes.len() ==> ((#[trigger] envelopes[i]).scope != scope
                ==> state.replayed(envelopes.take(i + 1)).snapshot(scope) == state.replayed(
                envelopes.take(i),
            ).snapshot(scope)),
        (forall|i: int| 0 <= i < envelopes.len() ==> (#[trigger] envelopes[i]).scope != scope)
            ==> state.replayed(envelopes).snapshot(scope) == state.snapshot(scope),
{
    assert forall|i: int| 0 <= i < envelopes.len() implies stays_in_scope(
        state.replayed(envelopes.take(i)),
        #[trigger] envelopes[i],
    ) by {
        lemma_decision_stays(state, command, context, envelopes, i);
    }
    lemma_run_elsewhere(state, envelopes, scope);
}

/// Every event of an expiry is about its own scope: it changes nothing in any other, nor does the
/// expiry as a whole change a scope in which no lease has ended.
pub proof fn expiry_changes_its_scopes_only(
    state: StateView,
    now: Timestamp,
    envelopes: Seq<EventEnvelopeView>,
    scope: Seq<char>,
)
    requires
        soundness::sound(state),
        model::carries(envelopes, state.expired(now)),
    ensures
        forall|i: int|
            0 <= i < envelopes.len() ==> stays_in_scope(
                state.replayed(envelopes.take(i)),
                #[trigger] envelopes[i],
            ),
        forall|i: int|
            0 <= i < envelopes.len() ==> ((#[trigger] envelopes[i]).scope != scope
                ==> state.replayed(envelopes.take(i + 1)).snapshot(scope) == state.replayed(
                envelopes.take(i),
            ).snapshot(scope)),
        (forall|i: int| 0 <= i < envelopes.len() ==> (#[trigger] envelopes[i]).scope != scope)
            ==> state.replayed(envelopes).snapshot(scope) == state.snapshot(scope),
{
    let events = state.expired(now);
    assert forall|k: int| 0 <= k < envelopes.len() implies (
    #[trigger] envelopes[k]).event is WorkReleased || envelopes[k].event is ParticipantLeft by {
        let p = presence::lemma_expired_by(state, now, k);
        presence::lemma_departure(state, p, LeaveReason::LeaseExpired, events[k]);
    }
    assert forall|i: int| 0 <= i < envelopes.len() implies stays_in_scope(
        state.replayed(envelopes.take(i)),
        #[trigger] envelopes[i],
    ) by {
        let p = presence::lemma_expired_by(state, now, i);
        lemma_departures_stay(state, envelopes, i, p, LeaveReason::LeaseExpired, events[i]);
    }
    lemma_run_elsewhere(state, envelopes, scope);
}

/// Whether all that is known belongs to known scopes, none of which is blank.
pub open spec fn scopes_are_known(state: StateView) -> bool {
    &&& forall|scope: Seq<char>| #[trigger] state.scopes.contains(scope) ==> !text::is_blank(scope)
    &&& forall|id: ParticipantId| #[trigger]
        state.participants.contains_key(id) ==> state.scopes.contains(state.participants[id].scope)
    &&& forall|i: int|
        0 <= i < state.signals.len() ==> state.scopes.contains((#[trigger] state.signals[i]).scope)
    &&& forall|id: DirectionId| #[trigger]
        state.directions.contains_key(id) ==> state.scopes.contains(state.directions[id].scope)
}

/// Whether the scope of an event is not blank, and is that of whom or what it brings in.
pub open spec fn names_its_scope(envelope: EventEnvelopeView) -> bool {
    &&& !text::is_blank(envelope.scope)
    &&& envelope.event is ParticipantJoined ==> envelope.event->ParticipantJoined_participant.scope
        == envelope.scope
    &&& envelope.event is DirectionIssued ==> envelope.event->DirectionIssued_direction.scope
        == envelope.scope
}

proof fn lemma_run_keeps_scopes_known(state: StateView, envelopes: Seq<EventEnvelopeView>)
    requires
        scopes_are_known(state),
        forall|i: int| 0 <= i < envelopes.len() ==> names_its_scope(#[trigger] envelopes[i]),
    ensures
        scopes_are_known(state.replayed(envelopes)),
    decreases envelopes.len(),
{
    if envelopes.len() > 0 {
        let init = envelopes.drop_last();
        assert forall|i: int| 0 <= i < init.len() implies names_its_scope(#[trigger] init[i]) by {
            assert(init[i] == envelopes[i]);
        }
        lemma_run_keeps_scopes_known(state, init);
        let before = state.replayed(init);
        let last = envelopes[envelopes.len() - 1];
        let after = before.applied(last);
        assert(names_its_scope(last));
        assert forall|i: int| 0 <= i < after.signals.len() implies after.scopes.contains(
            (#[trigger] after.signals[i]).scope,
        ) by {
            if i < before.signals.len() {
                assert(after.signals[i] == before.signals[i]);
            }
        }
        assert forall|id: DirectionId| #[trigger]
            after.directions.contains_key(id) implies after.scopes.contains(
            after.directions[id].scope,
        ) by {
            if before.directions.contains_key(id) {
                assert(before.scopes.contains(before.directions[id].scope));
            }
        }
    }
}

/// No decision lets anything belong to an unknown or a blank scope.
pub proof fn decisions_keep_scopes_known(
    state: StateView,
    command: CommandView,
    context: DecisionContext,
    envelopes: Seq<EventEnvelopeView>,
)
    requires
        state.well_formed(),
        scopes_are_known(state),
        model::carries(envelopes, state.decided(command, context).events()),
    ensures
        scopes_are_known(state.replayed(envelopes)),
{
    let events = state.decided(command, context).events();
    commands::commands_lead_to_their_events(state, command, context, envelopes);
    assert forall|i: int| 0 <= i < envelopes.len() implies names_its_scope(
        #[trigger] envelopes[i],
    ) by {
        assert(events.contains(events[i]));
        match command {
            CommandView::Leave { participant_id } => {
                presence::lemma_departure(
                    state,
                    state.participants[participant_id],
                    LeaveReason::Graceful,
                    events[i],
                );
            },
            CommandView::DeliverDirections { participant_id } => {
                let all = ordered::in_order::<DirectionId, DirectionView>(state.directions);
                let f = state.delivery_of(
                    state.participants[participant_id].scope,
                    participant_id,
                    context.now,
                );
                all.lemma_filter_map_contains(f, events[i]);
            },
            CommandView::ResolveAttention { request_id, .. } => {
                attention::lemma_first_request(state.signals, request_id);
            },
            _ => {},
        }
    }
    lemma_run_keeps_scopes_known(state, envelopes);
}

/// No expiry lets anything belong to an unknown or a blank scope.
pub proof fn expiry_keeps_scopes_known(
    state: StateView,
    now: Timestamp,
    envelopes: Seq<EventEnvelopeView>,
)
    requires
        state.well_formed(),
        scopes_are_known(state),
        model::carries(envelopes, state.expired(now)),
    ensures
        scopes_are_known(state.replayed(envelopes)),
{
    let events = state.expired(now);
    assert forall|i: int| 0 <= i < envelopes.len() implies names_its_scope(
        #[trigger] envelopes[i],
    ) by {
        let p = presence::lemma_expired_by(state, now, i);
        presence::lemma_departure(state, p, LeaveReason::LeaseExpired, events[i]);
    }
    lemma_run_keeps_scopes_known(state, envelopes);
}

} // verus!
