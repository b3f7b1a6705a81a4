//! Directions reach everyone they concern once, and are consumed one by one.
use vstd::prelude::*;

use crate::coordination::{DecisionContext, DecisionView, PendingEventView};
use crate::laws::presence;
use crate::laws::replay;
use crate::model;
use crate::model::StateView;
use crate::ordered;
use crate::protocol::{
    CommandView, DirectionDelivery, DirectionId, DirectionView, EventEnvelopeView, EventKindView,
    LeaveReason, ParticipantId,
};
use crate::sequences;
use crate::time::Timestamp;

verus! {

/// Whether a direction has been delivered to nobody twice.
pub open spec fn delivered_once(direction: DirectionView) -> bool {
    forall|i: int, j: int|
        0 <= i < j < direction.deliveries.len() ==> (
        #[trigger] direction.deliveries[i]).participant_id != (
        #[trigger] direction.deliveries[j]).participant_id
}

/// Whether no direction has been delivered to anybody twice.
pub open spec fn all_delivered_once(state: StateView) -> bool {
    forall|id: DirectionId| #[trigger]
        state.directions.contains_key(id) ==> delivered_once(state.directions[id])
}

/// A first delivery is found exactly where there is one.
pub proof fn lemma_first_delivery(
    deliveries: Seq<DirectionDelivery>,
    participant_id: ParticipantId,
)
    ensures
        match model::first_delivery(deliveries, participant_id) {
            Some(i) => 0 <= i < deliveries.len() && deliveries[i].participant_id == participant_id
                && forall|j: int|
                0 <= j < i ==> (#[trigger] deliveries[j]).participant_id != participant_id,
            None => forall|j: int|
                0 <= j < deliveries.len() ==> (#[trigger] deliveries[j]).participant_id
                    != participant_id,
        },
    decreases deliveries.len(),
{
    if deliveries.len() > 0 {
        let init = deliveries.drop_last();
        lemma_first_delivery(init, participant_id);
        assert forall|j: int| 0 <= j < init.len() implies #[trigger] deliveries[j] == init[j] by {}
    }
}

/// A direction with one more delivery.
pub open spec fn with_delivery(
    direction: DirectionView,
    participant_id: ParticipantId,
    delivered_at: Timestamp,
) -> DirectionView {
    DirectionView {
        deliveries: direction.deliveries.push(
            DirectionDelivery { participant_id, delivered_at, consumed_at: None },
        ),
        ..direction
    }
}

/// The directions that a run of events delivers to a participant.
spec fn delivers(envelopes: Seq<EventEnvelopeView>) -> Set<DirectionId> {
    Set::new(
        |id: DirectionId|
            exists|i: int|
                0 <= i < envelopes.len()
                    && (#[trigger] envelopes[i]).event->DirectionDelivered_direction_id == id,
    )
}

/// Whether all events deliver directions, each once, to one participant at one time.
spec fn only_deliveries(
    envelopes: Seq<EventEnvelopeView>,
    participant_id: ParticipantId,
    delivered_at: Timestamp,
) -> bool {
    &&& forall|i: int|
        0 <= i < envelopes.len() ==> (#[trigger] envelopes[i]).event
            == (EventKindView::DirectionDelivered {
            direction_id: envelopes[i].event->DirectionDelivered_direction_id,
            participant_id,
            delivered_at,
        })
    &&& forall|i: int, j: int|
        0 <= i < j < envelopes.len()
            ==> (#[trigger] envelopes[i]).event->DirectionDelivered_direction_id != (
        #[trigger] envelopes[j]).event->DirectionDelivered_direction_id
}

proof fn lemma_replay_deliveries(
    state: StateView,
    envelopes: Seq<EventEnvelopeView>,
    participant_id: ParticipantId,
    delivered_at: Timestamp,
)
    requires
        only_deliveries(envelopes, participant_id, delivered_at),
    ensures
        state.replayed(envelopes).participants == state.participants,
        state.replayed(envelopes).work == state.work,
        state.replayed(envelopes).signals == state.signals,
        state.replayed(envelopes).directions.dom() == state.directions.dom(),
        forall|id: DirectionId| #[trigger]
            state.directions.contains_key(id) ==> state.replayed(envelopes).directions[id]
                == if delivers(envelopes).contains(id) {
                with_delivery(state.directions[id], participant_id, delivered_at)
            } else {
                state.directions[id]
            },
    decreases envelopes.len(),
{
    if envelopes.len() > 0 {
        let init = envelopes.drop_last();
        let n = envelopes.len() - 1;
        assert forall|i: int| 0 <= i < init.len() implies #[trigger] init[i] == envelopes[i] by {}
        assert(only_deliveries(init, participant_id, delivered_at)) by {
            assert forall|i: int| 0 <= i < init.len() implies (#[trigger] init[i]).event
                == (EventKindView::DirectionDelivered {
                direction_id: init[i].event->DirectionDelivered_direction_id,
                participant_id,
                delivered_at,
            }) by {
                assert(init[i] == envelopes[i]);
            }
        }
        lemma_replay_deliveries(state, init, participant_id, delivered_at);
        let last = envelopes[n];
        let last_id = last.event->DirectionDelivered_direction_id;
        assert(envelopes.last() == last);
        assert forall|id: DirectionId| #[trigger] delivers(envelopes).contains(id) <==> (delivers(
            init,
        ).contains(id) || id == last_id) by {
            if delivers(envelopes).contains(id) {
                let i = choose|i: int|
                    0 <= i < envelopes.len()
                        && (#[trigger] envelopes[i]).event->DirectionDelivered_direction_id == id;
                if i < n {
                    assert(init[i] == envelopes[i]);
                }
            }
            if delivers(init).contains(id) {
                let i = choose|i: int|
                    0 <= i < init.len()
                        && (#[trigger] init[i]).event->DirectionDelivered_direction_id == id;
                assert(init[i] == envelopes[i]);
            }
        }
        assert(!delivers(init).contains(last_id)) by {
            if delivers(init).contains(last_id) {
                let i = choose|i: int|
                    0 <= i < init.len()
                        && (#[trigger] init[i]).event->DirectionDelivered_direction_id == last_id;
                assert(init[i] == envelopes[i]);
                assert(envelopes[i].event->DirectionDelivered_direction_id
                    != envelopes[n].event->DirectionDelivered_direction_id);
            }
        }
        let before = state.replayed(init);
        let after = state.replayed(envelopes);
        assert(after == before.applied(last));
        assert(after.directions.dom() =~= state.directions.dom());
        assert forall|id: DirectionId| #[trigger]
            state.directions.contains_key(id) implies after.directions[id] == if delivers(
            envelopes,
        ).contains(id) {
            with_delivery(state.directions[id], participant_id, delivered_at)
        } else {
            state.directions[id]
        } by {
            assert(before.directions.dom().contains(id));
            assert(delivers(envelopes).contains(id) <==> (delivers(init).contains(id) || id
                == last_id));
        }
    }
}

/// The events of a delivery name each deliverable direction once and no other.
proof fn lemma_delivery_events(
    state: StateView,
    participant_id: ParticipantId,
    context: DecisionContext,
    envelopes: Seq<EventEnvelopeView>,
)
    requires
        state.well_formed(),
        state.live(participant_id, context.now) is Some,
        model::carries(envelopes, state.delivered(participant_id, context).events()),
    ensures
        only_deliveries(envelopes, participant_id, context.now),
        forall|id: DirectionId| #[trigger]
            delivers(envelopes).contains(id) <==> state.directions.contains_key(id)
                && state.deliverable(
                state.directions[id],
                state.participants[participant_id].scope,
                participant_id,
            ),
{
    let scope = state.participants[participant_id].scope;
    let all = ordered::in_order::<DirectionId, DirectionView>(state.directions);
    let keys = ordered::listing::<DirectionId>(state.directions.dom());
    let f = state.delivery_of(scope, participant_id, context.now);
    let events = all.filter_map(f);
    assert(events == state.delivered(participant_id, context).events());
    ordered::lemma_in_order::<DirectionId, DirectionView>(state.directions);
    assert forall|i: int| 0 <= i < envelopes.len() implies (#[trigger] envelopes[i]).event
        == (EventKindView::DirectionDelivered {
        direction_id: envelopes[i].event->DirectionDelivered_direction_id,
        participant_id,
        delivered_at: context.now,
    }) by {
        assert(events.contains(events[i]));
        all.lemma_filter_map_contains(f, events[i]);
    }
    lemma_ids_distinct(state, all, keys, f, scope, participant_id, context.now);
    assert forall|i: int, j: int|
        0 <= i < j
            < envelopes.len() implies (#[trigger] envelopes[i]).event->DirectionDelivered_direction_id
        != (#[trigger] envelopes[j]).event->DirectionDelivered_direction_id by {
        assert(events[i].event->DirectionDelivered_direction_id
            != events[j].event->DirectionDelivered_direction_id);
    }
    assert forall|id: DirectionId| #[trigger]
        delivers(envelopes).contains(id) <==> state.directions.contains_key(id)
            && state.deliverable(state.directions[id], scope, participant_id) by {
        if delivers(envelopes).contains(id) {
            let i = choose|i: int|
                0 <= i < envelopes.len()
                    && (#[trigger] envelopes[i]).event->DirectionDelivered_direction_id == id;
            assert(events.contains(events[i]));
            all.lemma_filter_map_contains(f, events[i]);
            let d = choose|d: DirectionView| #[trigger] all.contains(d) && f(d) == Some(events[i]);
            let k = all.index_of(d);
            assert(all[k] == state.directions[keys[k]]);
            assert(state.directions.contains_key(keys[k]));
        }
        if state.directions.contains_key(id) && state.deliverable(
            state.directions[id],
            scope,
            participant_id,
        ) {
            assert(keys.contains(id));
            let k = keys.index_of(id);
            assert(all[k] == state.directions[id]);
            sequences::lemma_filter_map_has(all, f, k);
            let event = f(all[k])->0;
            let i = events.index_of(event);
            assert(envelopes[i].event == event.event);
        }
    }
}

proof fn lemma_ids_distinct(
    state: StateView,
    all: Seq<DirectionView>,
    keys: Seq<DirectionId>,
    f: spec_fn(DirectionView) -> Option<PendingEventView>,
    scope: Seq<char>,
    participant_id: ParticipantId,
    delivered_at: Timestamp,
)
    requires
        state.well_formed(),
        f == state.delivery_of(scope, participant_id, delivered_at),
        all.len() == keys.len(),
        keys.no_duplicates(),
        forall|i: int|
            0 <= i < all.len() ==> #[trigger] all[i] == state.directions[keys[i]]
                && state.directions.contains_key(keys[i]),
    ensures
        forall|i: int, j: int|
            0 <= i < j < all.filter_map(f).len() ==> (#[trigger] all.filter_map(
                f,
            )[i]).event->DirectionDelivered_direction_id != (#[trigger] all.filter_map(
                f,
            )[j]).event->DirectionDelivered_direction_id,
    decreases all.len(),
{
    if all.len() > 0 {
        let init = all.drop_last();
        let rest = keys.drop_last();
        let n = all.len() - 1;
        assert forall|i: int| 0 <= i < init.len() implies #[trigger] init[i]
            == state.directions[rest[i]] && state.directions.contains_key(rest[i]) by {
            assert(init[i] == all[i]);
        }
        lemma_ids_distinct(state, init, rest, f, scope, participant_id, delivered_at);
        let old_events = init.filter_map(f);
        let events = all.filter_map(f);
        assert(all[n] == state.directions[keys[n]]);
        assert forall|i: int, j: int|
            0 <= i < j
                < events.len() implies (#[trigger] events[i]).event->DirectionDelivered_direction_id
            != (#[trigger] events[j]).event->DirectionDelivered_direction_id by {
            assert(events[i] == old_events[i]);
            if j < old_events.len() {
                assert(events[j] == old_events[j]);
            } else {
                assert(old_events.contains(old_events[i]));
                init.lemma_filter_map_contains(f, old_events[i]);
                let d = choose|d: DirectionView| #[trigger]
                    init.contains(d) && f(d) == Some(old_events[i]);
                let k = init.index_of(d);
                assert(init[k] == state.directions[rest[k]]);
                assert(keys[k] == rest[k]);
                assert(keys[k] != keys[n]);
            }
        }
    }
}

/// Only a present participant is given directions: those of its scope that concern it and have not
/// been delivered to it yet, each by one event, and nothing else.
pub proof fn deliveries_are_exact(
    state: StateView,
    participant_id: ParticipantId,
    context: DecisionContext,
    envelopes: Seq<EventEnvelopeView>,
)
    requires
        state.well_formed(),
        model::carries(envelopes, state.delivered(participant_id, context).events()),
    ensures
        state.live(participant_id, context.now) is None ==> state.delivered(participant_id, context)
            == DecisionView::Rejected("participant is absent or its lease expired"@)
            && envelopes.len() == 0,
        state.live(participant_id, context.now) is Some ==> {
            let scope = state.participants[participant_id].scope;
            &&& state.delivered(participant_id, context) is Accepted
            &&& forall|i: int|
                0 <= i < envelopes.len() ==> {
                    let id = (#[trigger] envelopes[i]).event->DirectionDelivered_direction_id;
                    &&& envelopes[i].scope == scope
                    &&& envelopes[i].event == (EventKindView::DirectionDelivered {
                        direction_id: id,
                        participant_id,
                        delivered_at: context.now,
                    })
                    &&& state.directions.contains_key(id)
                    &&& state.deliverable(state.directions[id], scope, participant_id)
                }
            &&& forall|i: int, j: int|
                0 <= i < j < envelopes.len()
                    ==> (#[trigger] envelopes[i]).event->DirectionDelivered_direction_id != (
                #[trigger] envelopes[j]).event->DirectionDelivered_direction_id
            &&& forall|id: DirectionId| #[trigger]
                state.directions.contains_key(id) && state.deliverable(
                    state.directions[id],
                    scope,
                    participant_id,
                ) ==> exists|i: int|
                    0 <= i < envelopes.len()
                        && (#[trigger] envelopes[i]).event->DirectionDelivered_direction_id == id
        },
        forall|direction: DirectionView, scope: Seq<char>| #[trigger]
            state.deliverable(direction, scope, participant_id) <==> direction.scope == scope
                && state.concerns(direction, participant_id) && forall|j: int|
                0 <= j < direction.deliveries.len() ==> (
                #[trigger] direction.deliveries[j]).participant_id != participant_id,
{
    let events = state.delivered(participant_id, context).events();
    if state.live(participant_id, context.now) is Some {
        let scope = state.participants[participant_id].scope;
        lemma_delivery_events(state, participant_id, context, envelopes);
        let all = ordered::in_order::<DirectionId, DirectionView>(state.directions);
        let f = state.delivery_of(scope, participant_id, context.now);
        assert forall|i: int| 0 <= i < envelopes.len() implies {
            let id = (#[trigger] envelopes[i]).event->DirectionDelivered_direction_id;
            &&& envelopes[i].scope == scope
            &&& state.directions.contains_key(id)
            &&& state.deliverable(state.directions[id], scope, participant_id)
        } by {
            assert(events.contains(events[i]));
            all.lemma_filter_map_contains(f, events[i]);
            assert(delivers(envelopes).contains(
                envelopes[i].event->DirectionDelivered_direction_id,
            ));
        }
        assert forall|id: DirectionId| #[trigger]
            state.directions.contains_key(id) && state.deliverable(
                state.directions[id],
                scope,
                participant_id,
            ) implies exists|i: int|
            0 <= i < envelopes.len()
                && (#[trigger] envelopes[i]).event->DirectionDelivered_direction_id == id by {
            assert(delivers(envelopes).contains(id));
        }
    }
    assert forall|direction: DirectionView, scope: Seq<char>| #[trigger]
        state.deliverable(direction, scope, participant_id) <==> direction.scope == scope
            && state.concerns(direction, participant_id) && forall|j: int|
            0 <= j < direction.deliveries.len() ==> (
            #[trigger] direction.deliveries[j]).participant_id != participant_id by {
        lemma_first_delivery(direction.deliveries, participant_id);
    }
}

/// Asking for directions delivers each direction that concerns the participant and has not reached
/// it yet, exactly once: afterwards it is pending, all other directions are as they were, and
/// asking again delivers nothing more.
pub proof fn directions_reach_once(
    state: StateView,
    participant_id: ParticipantId,
    context: DecisionContext,
    envelopes: Seq<EventEnvelopeView>,
)
    requires
        state.well_formed(),
        state.live(participant_id, context.now) is Some,
        model::carries(
            envelopes,
            state.decided(CommandView::DeliverDirections { participant_id }, context).events(),
        ),
    ensures
        state.replayed(envelopes).directions.dom() == state.directions.dom(),
        forall|id: DirectionId| #[trigger]
            state.directions.contains_key(id) ==> if state.deliverable(
                state.directions[id],
                state.participants[participant_id].scope,
                participant_id,
            ) {
                &&& state.replayed(envelopes).directions[id] == with_delivery(
                    state.directions[id],
                    participant_id,
                    context.now,
                )
                &&& model::is_pending(state.replayed(envelopes).directions[id], participant_id)
            } else {
                state.replayed(envelopes).directions[id] == state.directions[id]
            },
        state.replayed(envelopes).decided(
            CommandView::DeliverDirections { participant_id },
            context,
        ) == model::unchanged(Some(participant_id)),
{
    lemma_delivery_events(state, participant_id, context, envelopes);
    lemma_replay_deliveries(state, envelopes, participant_id, context.now);
    let after = state.replayed(envelopes);
    let scope = state.participants[participant_id].scope;
    assert forall|id: DirectionId| #[trigger]
        state.directions.contains_key(id) && state.deliverable(
            state.directions[id],
            scope,
            participant_id,
        ) implies model::is_pending(after.directions[id], participant_id) by {
        assert(delivers(envelopes).contains(id));
        let d = after.directions[id].deliveries;
        assert(d[d.len() - 1].participant_id == participant_id);
    }
    let again = after.delivered(participant_id, context).events();
    replay::replay_keeps_form(state, envelopes);
    if again.len() > 0 {
        let all = ordered::in_order::<DirectionId, DirectionView>(after.directions);
        let keys = ordered::listing::<DirectionId>(after.directions.dom());
        let f = after.delivery_of(scope, participant_id, context.now);
        ordered::lemma_in_order::<DirectionId, DirectionView>(after.directions);
        assert(all.filter_map(f).contains(again[0]));
        all.lemma_filter_map_contains(f, again[0]);
        let d = choose|d: DirectionView| #[trigger] all.contains(d) && f(d) == Some(again[0]);
        let k = all.index_of(d);
        let id = keys[k];
        assert(all[k] == after.directions[id]);
        assert(after.directions.contains_key(id));
        assert(state.directions.dom().contains(id));
        assert(delivers(envelopes).contains(id) <==> state.directions.contains_key(id)
            && state.deliverable(state.directions[id], scope, participant_id));
        lemma_first_delivery(d.deliveries, participant_id);
        if delivers(envelopes).contains(id) {
            assert(d.deliveries[d.deliveries.len() - 1].participant_id == participant_id);
        } else {
            assert(after.concerns(d, participant_id) == state.concerns(d, participant_id));
        }
    }
    assert(again =~= Seq::<PendingEventView>::empty());
}

/// No decision delivers a direction to anybody twice.
pub proof fn decisions_deliver_once(
    state: StateView,
    command: CommandView,
    context: DecisionContext,
    envelopes: Seq<EventEnvelopeView>,
)
    requires
        state.well_formed(),
        all_delivered_once(state),
        model::carries(envelopes, state.decided(command, context).events()),
    ensures
        all_delivered_once(state.replayed(envelopes)),
{
    let after = state.replayed(envelopes);
    match command {
        CommandView::DeliverDirections { participant_id } => {
            if state.live(participant_id, context.now) is Some {
                directions_reach_once(state, participant_id, context, envelopes);
                assert forall|id: DirectionId| #[trigger]
                    after.directions.contains_key(id) implies delivered_once(
                    after.directions[id],
                ) by {
                    assert(after.directions.dom().contains(id));
                    assert(state.directions.contains_key(id));
                    lemma_first_delivery(state.directions[id].deliveries, participant_id);
                }
            }
        },
        CommandView::ConsumeDirection { participant_id, direction_id } => {
            if envelopes.len() == 1 {
                replay::replay_of_one(state, envelopes);
                lemma_first_delivery(state.directions[direction_id].deliveries, participant_id);
            }
        },
        CommandView::Intervene { .. } => {
            if envelopes.len() == 1 {
                replay::replay_of_one(state, envelopes);
            }
        },
        CommandView::Leave { participant_id } => {
            if state.participants.contains_key(participant_id) {
                presence::departure_releases_all(
                    state,
                    participant_id,
                    LeaveReason::Graceful,
                    envelopes,
                );
            }
        },
        CommandView::PublishSignal { .. } => {
            if envelopes.len() == 2 {
                let init = envelopes.drop_last();
                replay::replay_of_one(state, init);
                assert(init[0] == envelopes[0]);
                assert(envelopes[1].event is WorkReleased);
            } else if envelopes.len() == 1 {
                replay::replay_of_one(state, envelopes);
            }
        },
        _ => {
            if envelopes.len() == 1 {
                replay::replay_of_one(state, envelopes);
            }
        },
    }
}

/// Consuming a direction closes exactly the participant's own delivery of it: the direction is no
/// longer pending for it, and no other delivery and no other direction changes.
pub proof fn consumption_closes_one_delivery(
    state: StateView,
    participant_id: ParticipantId,
    direction_id: DirectionId,
    context: DecisionContext,
    envelopes: Seq<EventEnvelopeView>,
)
    requires
        state.well_formed(),
        all_delivered_once(state),
        state.decided(
            CommandView::ConsumeDirection { participant_id, direction_id },
            context,
        ) is Accepted,
        model::carries(
            envelopes,
            state.decided(
                CommandView::ConsumeDirection { participant_id, direction_id },
                context,
            ).events(),
        ),
    ensures
        state.directions.contains_key(direction_id),
        !model::is_pending(state.replayed(envelopes).directions[direction_id], participant_id),
        forall|other: ParticipantId|
            other != participant_id ==> #[trigger] model::is_pending(
                state.replayed(envelopes).directions[direction_id],
                other,
            ) == model::is_pending(state.directions[direction_id], other),
        state.replayed(envelopes).directions.remove(direction_id) == state.directions.remove(
            direction_id,
        ),
        state.replayed(envelopes).decided(
            CommandView::ConsumeDirection { participant_id, direction_id },
            context,
        ) == model::unchanged(Some(participant_id)),
{
    let direction = state.directions[direction_id];
    lemma_first_delivery(direction.deliveries, participant_id);
    let i = model::first_delivery(direction.deliveries, participant_id)->0;
    let after = state.replayed(envelopes);
    if direction.deliveries[i].consumed_at is Some {
        assert(after == state);
    } else {
        replay::replay_of_one(state, envelopes);
        let d = after.directions[direction_id];
        lemma_first_delivery(d.deliveries, participant_id);
        assert(after.directions.remove(direction_id) =~= state.directions.remove(direction_id));
        assert forall|other: ParticipantId|
            other != participant_id implies #[trigger] model::is_pending(d, other)
            == model::is_pending(direction, other) by {
            if model::is_pending(direction, other) {
                let j = choose|j: int|
                    0 <= j < direction.deliveries.len() && (
                    #[trigger] direction.deliveries[j]).participant_id == other
                        && direction.deliveries[j].consumed_at is None;
                assert(d.deliveries[j] == direction.deliveries[j]);
            }
            if model::is_pending(d, other) {
                let j = choose|j: int|
                    0 <= j < d.deliveries.len() && (#[trigger] d.deliveries[j]).participant_id
                        == other && d.deliveries[j].consumed_at is None;
                assert(d.deliveries[j] == direction.deliveries[j]);
            }
        }
        assert(d.deliveries[i].consumed_at is Some);
        assert forall|j: int| 0 <= j < d.deliveries.len() && j != i implies (
        #[trigger] d.deliveries[j]).participant_id != participant_id by {
            assert(d.deliveries[j] == direction.deliveries[j]);
            assert(direction.deliveries[i].participant_id == participant_id);
        }
    }
}

/// A present participant consumes exactly what has been delivered to it: by one event as long as
/// the direction is pending, and by none from then on.
pub proof fn consumption_needs_a_delivery(
    state: StateView,
    participant_id: ParticipantId,
    direction_id: DirectionId,
    context: DecisionContext,
)
    requires
        all_delivered_once(state),
    ensures
        state.consumed(participant_id, direction_id, context) is Accepted <==> {
            &&& state.live(participant_id, context.now) is Some
            &&& state.directions.contains_key(direction_id)
            &&& exists|i: int|
                0 <= i < state.directions[direction_id].deliveries.len() && (
                #[trigger] state.directions[direction_id].deliveries[i]).participant_id
                    == participant_id
        },
        state.consumed(participant_id, direction_id, context) is Accepted ==> state.consumed(
            participant_id,
            direction_id,
            context,
        ) == if model::is_pending(state.directions[direction_id], participant_id) {
            model::accepted(
                state.directions[direction_id].scope,
                EventKindView::DirectionConsumed {
                    direction_id,
                    participant_id,
                    consumed_at: context.now,
                },
                Some(participant_id),
                None,
            )
        } else {
            model::unchanged(Some(participant_id))
        },
{
    let deliveries = state.directions[direction_id].deliveries;
    lemma_first_delivery(deliveries, participant_id);
    if state.directions.contains_key(direction_id) {
        assert(delivered_once(state.directions[direction_id]));
        if let Some(k) = model::first_delivery(deliveries, participant_id) {
            assert(deliveries[k].participant_id == participant_id);
            assert forall|i: int|
                0 <= i < deliveries.len() && (#[trigger] deliveries[i]).participant_id
                    == participant_id implies i == k by {
                if i < k {
                    assert(deliveries[i].participant_id != deliveries[k].participant_id);
                } else if k < i {
                    assert(deliveries[k].participant_id != deliveries[i].participant_id);
                }
            }
        }
    }
}

/// The identities of directions.
pub open spec fn ids(directions: Seq<DirectionView>) -> Seq<DirectionId> {
    directions.map_values(|direction: DirectionView| direction.id)
}

spec fn pending_ids(state: StateView, participant_id: ParticipantId) -> Set<DirectionId> {
    Set::new(
        |id: DirectionId|
            state.directions.contains_key(id) && model::is_pending(
                state.directions[id],
                participant_id,
            ),
    )
}

proof fn lemma_pending_ids(state: StateView, participant_id: ParticipantId)
    requires
        state.well_formed(),
        state.participants.contains_key(participant_id),
    ensures
        ids(state.directions_for(participant_id)) == ordered::listing::<DirectionId>(
            pending_ids(state, participant_id),
        ),
        pending_ids(state, participant_id).finite(),
{
    let p = model::pending_for(participant_id);
    let m = state.directions;
    let part = m.restrict(Set::new(|k: DirectionId| m.contains_key(k) && p(m[k])));
    ordered::lemma_in_order_filter::<DirectionId, DirectionView>(m, p);
    assert(part.dom() =~= pending_ids(state, participant_id));
    assert(part.dom().subset_of(m.dom()));
    vstd::set_lib::lemma_set_subset_finite(m.dom(), part.dom());
    ordered::lemma_in_order::<DirectionId, DirectionView>(part);
    let keys = ordered::listing::<DirectionId>(part.dom());
    let list = ordered::in_order::<DirectionId, DirectionView>(part);
    assert forall|i: int| 0 <= i < list.len() implies (#[trigger] list[i]).id == keys[i] by {
        assert(list[i] == part[keys[i]]);
        assert(m.contains_key(keys[i]));
    }
    assert(ids(list) =~= keys);
}

/// Consuming a direction takes it from the participant's own list and leaves everyone else's, each
/// in its order.
pub proof fn consumption_shortens_one_list(
    state: StateView,
    participant_id: ParticipantId,
    direction_id: DirectionId,
    context: DecisionContext,
    envelopes: Seq<EventEnvelopeView>,
    other: ParticipantId,
)
    requires
        state.well_formed(),
        all_delivered_once(state),
        state.consumed(participant_id, direction_id, context) is Accepted,
        model::carries(
            envelopes,
            state.consumed(participant_id, direction_id, context).events(),
        ),
        other != participant_id,
    ensures
        ids(state.replayed(envelopes).directions_for(participant_id)) == ids(
            state.directions_for(participant_id),
        ).filter(|id: DirectionId| id != direction_id),
        ids(state.replayed(envelopes).directions_for(other)) == ids(state.directions_for(other)),
{
    let after = state.replayed(envelopes);
    consumption_closes_one_delivery(state, participant_id, direction_id, context, envelopes);
    replay::replay_keeps_form(state, envelopes);
    if envelopes.len() == 1 {
        replay::replay_of_one(state, envelopes);
    }
    assert(after.participants == state.participants);
    assert(after.directions.dom() =~= state.directions.dom());
    assert forall|id: DirectionId|
        id != direction_id && state.directions.contains_key(id) implies after.directions[id]
        == #[trigger] state.directions[id] by {
        assert(after.directions.remove(direction_id).contains_key(id));
        assert(after.directions.remove(direction_id)[id] == state.directions.remove(
            direction_id,
        )[id]);
    }
    assert forall|id: DirectionId| #[trigger] after.directions.contains_key(id)
        == state.directions.contains_key(id) by {
        assert(after.directions.dom().contains(id) == state.directions.dom().contains(id));
    }
    let p = |id: DirectionId| id != direction_id;
    lemma_pending_ids(state, participant_id);
    lemma_pending_ids(after, participant_id);
    let own = pending_ids(state, participant_id);
    assert(pending_ids(after, participant_id) =~= own.filter(p));
    ordered::lemma_listing_filter::<DirectionId>(own, p);
    if state.participants.contains_key(other) {
        lemma_pending_ids(state, other);
        lemma_pending_ids(after, other);
        assert(pending_ids(after, other) =~= pending_ids(state, other));
    } else {
        assert(state.directions_for(other) == after.directions_for(other));
    }
}

/// A direction stays with its addressee: one that names a present participant concerns that
/// participant alone, and a broadcast concerns everyone.
pub proof fn directions_concern_their_addressee(
    state: StateView,
    direction: DirectionView,
    participant_id: ParticipantId,
)
    ensures
        direction.target is None ==> state.concerns(direction, participant_id),
        direction.target is Some && state.participants.contains_key(
            direction.target->0.participant_id,
        ) ==> (state.concerns(direction, participant_id) <==> participant_id
            == direction.target->0.participant_id),
{
}

} // verus!
