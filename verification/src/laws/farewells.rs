//! Departures and deliveries, event by event.
use vstd::prelude::*;

use crate::coordination::{DecisionContext, DecisionView, PendingEventView};
use crate::laws::directions;
use crate::laws::outcomes;
use crate::laws::presence;
use crate::model;
use crate::model::StateView;
use crate::ordered;
use crate::protocol::{
    CommandView, DirectionId, DirectionView, EventEnvelopeView, EventKindView, LeaveReason,
    ParticipantId, ParticipantView, ReleaseReason, WorkClaimView, WorkId,
};
use crate::sequences;
use crate::time::Timestamp;

verus! {

/// Whether events are the departure of a participant: first its work is released piece by piece, in
/// the order of the claims, all of it and none of anyone else, then it leaves; each event says why
/// and belongs to the participant's scope.
pub open spec fn is_departure(
    state: StateView,
    id: ParticipantId,
    events: Seq<PendingEventView>,
    why_released: ReleaseReason,
    why_left: LeaveReason,
) -> bool {
    let scope = state.participants[id].scope;
    let n = events.len() - 1;
    &&& n >= 0
    &&& events[n] == (PendingEventView {
        scope,
        event: EventKindView::ParticipantLeft { participant_id: id, reason: why_left },
    })
    &&& forall|i: int|
        0 <= i < n ==> {
            let event = #[trigger] events[i];
            let work_id = event.event->WorkReleased_work_id;
            &&& event.scope == scope
            &&& event.event == (EventKindView::WorkReleased {
                work_id,
                previous_owner: id,
                reason: why_released,
            })
            &&& state.work.contains_key(work_id)
            &&& state.work[work_id].owner == id
        }
    &&& forall|i: int, j: int|
        0 <= i < j < n ==> (#[trigger] events[i]).event->WorkReleased_work_id.0 < (
        #[trigger] events[j]).event->WorkReleased_work_id.0
    &&& forall|work_id: WorkId| #[trigger]
        state.work.contains_key(work_id) && state.work[work_id].owner == id ==> exists|i: int|
            0 <= i < n && (#[trigger] events[i]).event->WorkReleased_work_id == work_id
}

proof fn lemma_is_departure(state: StateView, id: ParticipantId, reason: LeaveReason)
    requires
        state.well_formed(),
        state.participants.contains_key(id),
    ensures
        is_departure(
            state,
            id,
            state.departure(state.participants[id], reason),
            if reason is Graceful {
                ReleaseReason::ParticipantLeft
            } else {
                ReleaseReason::LeaseExpired
            },
            reason,
        ),
{
    let participant = state.participants[id];
    let why = match reason {
        LeaveReason::Graceful => ReleaseReason::ParticipantLeft,
        LeaveReason::LeaseExpired => ReleaseReason::LeaseExpired,
    };
    let all = ordered::in_order::<WorkId, WorkClaimView>(state.work);
    let keys = ordered::listing::<WorkId>(state.work.dom());
    let f = StateView::release_of(participant, why);
    let releases = all.filter_map(f);
    let events = state.departure(participant, reason);
    let n = events.len() - 1;
    assert(n == releases.len());
    ordered::lemma_in_order::<WorkId, WorkClaimView>(state.work);
    ordered::lemma_listing_of_finite::<WorkId>(state.work.dom());
    assert forall|i: int| 0 <= i < n implies {
        let event = #[trigger] events[i];
        let work_id = event.event->WorkReleased_work_id;
        &&& event.scope == participant.scope
        &&& event.event == (EventKindView::WorkReleased {
            work_id,
            previous_owner: id,
            reason: why,
        })
        &&& state.work.contains_key(work_id)
        &&& state.work[work_id].owner == id
    } by {
        assert(events[i] == releases[i]);
        assert(releases.contains(releases[i]));
        all.lemma_filter_map_contains(f, releases[i]);
        let w = choose|w: WorkClaimView| #[trigger] all.contains(w) && f(w) == Some(releases[i]);
        let k = all.index_of(w);
        assert(all[k] == state.work[keys[k]]);
        assert(state.work.contains_key(keys[k]));
    }
    assert forall|i: int, j: int|
        0 <= i < j < n implies (#[trigger] events[i]).event->WorkReleased_work_id.0 < (
    #[trigger] events[j]).event->WorkReleased_work_id.0 by {
        assert(events[i] == releases[i] && events[j] == releases[j]);
        let (a, b) = sequences::lemma_filter_map_sources(all, f, i, j);
        assert(all[a] == state.work[keys[a]] && all[b] == state.work[keys[b]]);
        assert(state.work.contains_key(keys[a]) && state.work.contains_key(keys[b]));
        assert(<WorkId as ordered::Key>::before(keys[a], keys[b]));
    }
    assert forall|work_id: WorkId| #[trigger]
        state.work.contains_key(work_id) && state.work[work_id].owner == id implies exists|i: int|
        0 <= i < n && (#[trigger] events[i]).event->WorkReleased_work_id == work_id by {
        assert(keys.contains(work_id));
        let k = keys.index_of(work_id);
        assert(all[k] == state.work[work_id]);
        sequences::lemma_filter_map_has(all, f, k);
        let event = f(all[k])->0;
        let i = releases.index_of(event);
        assert(events[i] == event);
    }
}

/// Whoever is known leaves, lease or no lease: its work is released because it left, then it is
/// gone. Whoever is not known cannot leave.
pub proof fn leaving_is_told_event_by_event(
    state: StateView,
    participant_id: ParticipantId,
    context: DecisionContext,
)
    requires
        state.well_formed(),
    ensures
        ({
            let decision = state.decided(CommandView::Leave { participant_id }, context);
            &&& decision is Accepted <==> state.participants.contains_key(participant_id)
            &&& !(decision is Conflict)
            &&& !(decision is Accepted) ==> decision == DecisionView::Rejected(
                "participant does not exist"@,
            )
            &&& decision is Accepted ==> {
                &&& decision->Accepted_participant_id == Some(participant_id)
                &&& decision->Accepted_work_id is None
                &&& is_departure(
                    state,
                    participant_id,
                    decision.events(),
                    ReleaseReason::ParticipantLeft,
                    LeaveReason::Graceful,
                )
            }
        }),
{
    if state.participants.contains_key(participant_id) {
        lemma_is_departure(state, participant_id, LeaveReason::Graceful);
    }
}

/// Expiry tells the departure of each participant whose lease has ended, and of nobody else: each
/// event is part of one such departure, and each such departure is told whole.
pub proof fn expiry_is_told_event_by_event(state: StateView, now: Timestamp, id: ParticipantId)
    requires
        state.well_formed(),
    ensures
        forall|i: int|
            0 <= i < state.expired(now).len() ==> {
                let event = #[trigger] state.expired(now)[i];
                let who = match event.event {
                    EventKindView::WorkReleased { previous_owner, .. } => previous_owner,
                    EventKindView::ParticipantLeft { participant_id, .. } => participant_id,
                    _ => arbitrary(),
                };
                &&& state.participants.contains_key(who)
                &&& !outcomes::is_there(state, who, now)
                &&& event.scope == state.participants[who].scope
                &&& event.event is WorkReleased || event.event is ParticipantLeft
                &&& event.event is WorkReleased ==> {
                    &&& event.event->WorkReleased_reason is LeaseExpired
                    &&& state.work.contains_key(event.event->WorkReleased_work_id)
                    &&& state.work[event.event->WorkReleased_work_id].owner == who
                }
                &&& event.event is ParticipantLeft
                    ==> event.event->ParticipantLeft_reason is LeaseExpired
            },
        state.participants.contains_key(id) && !outcomes::is_there(state, id, now)
            ==> exists|first: int, end: int|
            0 <= first < end <= state.expired(now).len() && #[trigger] is_departure(
                state,
                id,
                state.expired(now).subrange(first, end),
                ReleaseReason::LeaseExpired,
                LeaveReason::LeaseExpired,
            ),
        (forall|p: ParticipantId| #[trigger]
            state.participants.contains_key(p) ==> outcomes::is_there(state, p, now))
            ==> state.expired(now).len() == 0,
{
    let events = state.expired(now);
    assert forall|i: int| 0 <= i < events.len() implies {
        let event = #[trigger] events[i];
        let who = match event.event {
            EventKindView::WorkReleased { previous_owner, .. } => previous_owner,
            EventKindView::ParticipantLeft { participant_id, .. } => participant_id,
            _ => arbitrary(),
        };
        &&& state.participants.contains_key(who)
        &&& !outcomes::is_there(state, who, now)
        &&& event.scope == state.participants[who].scope
        &&& event.event is WorkReleased || event.event is ParticipantLeft
        &&& event.event is WorkReleased ==> {
            &&& event.event->WorkReleased_reason is LeaseExpired
            &&& state.work.contains_key(event.event->WorkReleased_work_id)
            &&& state.work[event.event->WorkReleased_work_id].owner == who
        }
        &&& event.event is ParticipantLeft ==> event.event->ParticipantLeft_reason is LeaseExpired
    } by {
        let p = presence::lemma_expired_by(state, now, i);
        lemma_is_departure(state, p.id, LeaveReason::LeaseExpired);
        let departure = state.departure(p, LeaveReason::LeaseExpired);
        let k = departure.index_of(events[i]);
        assert(departure[k] == events[i]);
    }
    if state.participants.contains_key(id) && !outcomes::is_there(state, id, now) {
        let all = ordered::in_order::<ParticipantId, ParticipantView>(state.participants);
        let keys = ordered::listing::<ParticipantId>(state.participants.dom());
        let f = state.expiry(now);
        ordered::lemma_in_order::<ParticipantId, ParticipantView>(state.participants);
        assert(keys.contains(id));
        let k = keys.index_of(id);
        assert(all[k] == state.participants[id]);
        lemma_is_departure(state, id, LeaveReason::LeaseExpired);
        let (first, end) = lemma_flat_map_part(all, f, k);
        assert(f(all[k]) == state.departure(state.participants[id], LeaveReason::LeaseExpired));
        assert(is_departure(
            state,
            id,
            events.subrange(first, end),
            ReleaseReason::LeaseExpired,
            LeaveReason::LeaseExpired,
        ));
    }
    if events.len() > 0 {
        let p = presence::lemma_expired_by(state, now, 0);
        assert(state.participants.contains_key(p.id));
        assert(!outcomes::is_there(state, p.id, now));
    }
}

proof fn lemma_flat_map_part<A, B>(s: Seq<A>, f: spec_fn(A) -> Seq<B>, k: int) -> (part: (int, int))
    requires
        0 <= k < s.len(),
    ensures
        0 <= part.0 <= part.1 <= s.flat_map(f).len(),
        s.flat_map(f).subrange(part.0, part.1) == f(s[k]),
        part.1 - part.0 == f(s[k]).len(),
    decreases s.len(),
{
    let n = s.len() - 1;
    let rest = s.drop_last();
    assert(s.take(n) == rest);
    assert(s.take(n + 1) == s);
    s.lemma_flat_map_take_append(f, n);
    let left = rest.flat_map(f);
    let whole = s.flat_map(f);
    assert(whole == left + f(s[n]));
    if k == n {
        assert(whole.subrange(left.len() as int, whole.len() as int) =~= f(s[n]));
        (left.len() as int, whole.len() as int)
    } else {
        let (a, b) = lemma_flat_map_part(rest, f, k);
        assert(rest[k] == s[k]);
        assert(whole.subrange(a, b) =~= left.subrange(a, b));
        (a, b)
    }
}

/// Whom a direction is for: everyone where it names nobody; whom it names, while that one is
/// present; else the owner of the work that it names.
pub open spec fn is_for(
    state: StateView,
    direction: DirectionView,
    participant_id: ParticipantId,
) -> bool {
    direction.target is Some ==> {
        let target = direction.target->0;
        if state.participants.contains_key(target.participant_id) {
            participant_id == target.participant_id
        } else {
            target.work_id is Some && state.work.contains_key(target.work_id->0)
                && state.work[target.work_id->0].owner == participant_id
        }
    }
}

/// Whoever is present is given each direction of its scope that is for it and that it was not given
/// before, in the order of the directions, and no other.
pub proof fn directions_reach_whom_they_are_for(
    state: StateView,
    participant_id: ParticipantId,
    context: DecisionContext,
)
    requires
        state.well_formed(),
    ensures
        ({
            let decision = state.decided(CommandView::DeliverDirections { participant_id }, context);
            let scope = state.participants[participant_id].scope;
            let events = decision.events();
            &&& decision is Accepted <==> outcomes::is_there(state, participant_id, context.now)
            &&& !(decision is Conflict)
            &&& !(decision is Accepted) ==> decision == DecisionView::Rejected(
                "participant is absent or its lease expired"@,
            )
            &&& decision is Accepted ==> {
                &&& decision->Accepted_participant_id == Some(participant_id)
                &&& decision->Accepted_work_id is None
                &&& forall|id: DirectionId| #[trigger]
                    state.directions.contains_key(id) ==> (events.contains(
                        PendingEventView {
                            scope,
                            event: EventKindView::DirectionDelivered {
                                direction_id: id,
                                participant_id,
                                delivered_at: context.now,
                            },
                        },
                    ) <==> {
                        &&& state.directions[id].scope == scope
                        &&& is_for(state, state.directions[id], participant_id)
                        &&& forall|k: int|
                            0 <= k < state.directions[id].deliveries.len() ==> (
                            #[trigger] state.directions[id].deliveries[k]).participant_id
                                != participant_id
                    })
                &&& forall|i: int|
                    0 <= i < events.len() ==> {
                        let event = #[trigger] events[i];
                        &&& event.scope == scope
                        &&& event.event is DirectionDelivered
                        &&& event.event->DirectionDelivered_participant_id == participant_id
                        &&& event.event->DirectionDelivered_delivered_at == context.now
                        &&& state.directions.contains_key(
                            event.event->DirectionDelivered_direction_id,
                        )
                    }
                &&& forall|i: int, j: int|
                    0 <= i < j < events.len() ==> (
                    #[trigger] events[i]).event->DirectionDelivered_direction_id.0 < (
                    #[trigger] events[j]).event->DirectionDelivered_direction_id.0
            }
        }),
{
    let scope = state.participants[participant_id].scope;
    let all = ordered::in_order::<DirectionId, DirectionView>(state.directions);
    let keys = ordered::listing::<DirectionId>(state.directions.dom());
    let f = state.delivery_of(scope, participant_id, context.now);
    let events = all.filter_map(f);
    ordered::lemma_in_order::<DirectionId, DirectionView>(state.directions);
    ordered::lemma_listing_of_finite::<DirectionId>(state.directions.dom());
    if outcomes::is_there(state, participant_id, context.now) {
        assert(events == state.delivered(participant_id, context).events());
        assert forall|i: int| 0 <= i < events.len() implies {
            let event = #[trigger] events[i];
            &&& event.scope == scope
            &&& event.event is DirectionDelivered
            &&& event.event->DirectionDelivered_participant_id == participant_id
            &&& event.event->DirectionDelivered_delivered_at == context.now
            &&& state.directions.contains_key(event.event->DirectionDelivered_direction_id)
            &&& state.deliverable(
                state.directions[event.event->DirectionDelivered_direction_id],
                scope,
                participant_id,
            )
        } by {
            assert(events.contains(events[i]));
            all.lemma_filter_map_contains(f, events[i]);
            let d = choose|d: DirectionView| #[trigger] all.contains(d) && f(d) == Some(events[i]);
            let k = all.index_of(d);
            assert(all[k] == state.directions[keys[k]]);
            assert(state.directions.contains_key(keys[k]));
        }
        assert forall|i: int, j: int|
            0 <= i < j < events.len() implies (
        #[trigger] events[i]).event->DirectionDelivered_direction_id.0 < (
        #[trigger] events[j]).event->DirectionDelivered_direction_id.0 by {
            let (a, b) = sequences::lemma_filter_map_sources(all, f, i, j);
            assert(all[a] == state.directions[keys[a]] && all[b] == state.directions[keys[b]]);
            assert(state.directions.contains_key(keys[a]) && state.directions.contains_key(
                keys[b],
            ));
            assert(<DirectionId as ordered::Key>::before(keys[a], keys[b]));
        }
        assert forall|id: DirectionId| #[trigger] state.directions.contains_key(id) implies (
        events.contains(
            PendingEventView {
                scope,
                event: EventKindView::DirectionDelivered {
                    direction_id: id,
                    participant_id,
                    delivered_at: context.now,
                },
            },
        ) <==> {
            &&& state.directions[id].scope == scope
            &&& is_for(state, state.directions[id], participant_id)
            &&& forall|k: int|
                0 <= k < state.directions[id].deliveries.len() ==> (
                #[trigger] state.directions[id].deliveries[k]).participant_id != participant_id
        }) by {
            let event = PendingEventView {
                scope,
                event: EventKindView::DirectionDelivered {
                    direction_id: id,
                    participant_id,
                    delivered_at: context.now,
                },
            };
            directions::lemma_first_delivery(state.directions[id].deliveries, participant_id);
            if events.contains(event) {
                let i = events.index_of(event);
                assert(events[i] == event);
            }
            if state.deliverable(state.directions[id], scope, participant_id) {
                assert(keys.contains(id));
                let k = keys.index_of(id);
                assert(all[k] == state.directions[id]);
                sequences::lemma_filter_map_has(all, f, k);
            }
        }
    }
}

/// Whoever is present consumes what was delivered to it, once; the delivery then bears the time, and
/// nothing else has changed.
pub proof fn consuming_marks_the_delivery(
    state: StateView,
    participant_id: ParticipantId,
    direction_id: DirectionId,
    context: DecisionContext,
    envelopes: Seq<EventEnvelopeView>,
    at: int,
)
    requires
        directions::all_delivered_once(state),
        state.directions.contains_key(direction_id),
        0 <= at < state.directions[direction_id].deliveries.len(),
        state.directions[direction_id].deliveries[at].participant_id == participant_id,
        model::carries(
            envelopes,
            state.decided(
                CommandView::ConsumeDirection { participant_id, direction_id },
                context,
            ).events(),
        ),
    ensures
        ({
            let decision = state.decided(
                CommandView::ConsumeDirection { participant_id, direction_id },
                context,
            );
            let was = state.directions[direction_id];
            let after = state.replayed(envelopes);
            let is = after.directions[direction_id];
            &&& decision is Accepted <==> outcomes::is_there(state, participant_id, context.now)
            &&& !(decision is Accepted) ==> decision == DecisionView::Rejected(
                "participant is absent or its lease expired"@,
            )
            &&& decision is Accepted ==> {
                &&& decision->Accepted_participant_id == Some(participant_id)
                &&& decision->Accepted_work_id is None
                &&& was.deliveries[at].consumed_at is Some ==> envelopes.len() == 0 && after == state
                &&& was.deliveries[at].consumed_at is None ==> {
                    &&& envelopes.len() == 1
                    &&& envelopes[0].scope == was.scope
                    &&& envelopes[0].event == (EventKindView::DirectionConsumed {
                        direction_id,
                        participant_id,
                        consumed_at: context.now,
                    })
                    &&& is.id == was.id
                    &&& is.scope == was.scope
                    &&& is.message == was.message
                    &&& is.author == was.author
                    &&& is.created_at == was.created_at
                    &&& is.target == was.target
                    &&& is.deliveries.len() == was.deliveries.len()
                    &&& is.deliveries[at].participant_id == participant_id
                    &&& is.deliveries[at].delivered_at == was.deliveries[at].delivered_at
                    &&& is.deliveries[at].consumed_at == Some(context.now)
                    &&& forall|k: int|
                        0 <= k < was.deliveries.len() && k != at ==> #[trigger] is.deliveries[k]
                            == was.deliveries[k]
                    &&& after.directions.remove(direction_id) == state.directions.remove(
                        direction_id,
                    )
                    &&& after.signals == state.signals
                    &&& after.work == state.work
                    &&& after.participants == state.participants
                    &&& after.workspaces == state.workspaces
                    &&& after.resolved_requests == state.resolved_requests
                    &&& after.metrics == state.metrics
                }
            }
        }),
{
    let d = state.directions[direction_id].deliveries;
    directions::lemma_first_delivery(d, participant_id);
    let k = model::first_delivery(d, participant_id)->0;
    if k < at {
        assert(d[k].participant_id != d[at].participant_id);
    } else if at < k {
        assert(d[at].participant_id != participant_id);
    }
    if envelopes.len() == 1 {
        crate::laws::replay::replay_of_one(state, envelopes);
        let after = state.replayed(envelopes);
        assert(after.directions.remove(direction_id) =~= state.directions.remove(direction_id));
    }
}

/// What was not delivered to whoever is present, it cannot consume.
pub proof fn only_deliveries_are_consumed(
    state: StateView,
    participant_id: ParticipantId,
    direction_id: DirectionId,
    context: DecisionContext,
)
    requires
        outcomes::is_there(state, participant_id, context.now),
        state.directions.contains_key(direction_id) ==> forall|k: int|
            0 <= k < state.directions[direction_id].deliveries.len() ==> (
            #[trigger] state.directions[direction_id].deliveries[k]).participant_id
                != participant_id,
    ensures
        state.decided(CommandView::ConsumeDirection { participant_id, direction_id }, context)
            == DecisionView::Rejected(
            if state.directions.contains_key(direction_id) {
                "direction was not delivered to this participant"@
            } else {
                "direction does not exist"@
            },
        ),
{
    directions::lemma_first_delivery(state.directions[direction_id].deliveries, participant_id);
}

} // verus!
