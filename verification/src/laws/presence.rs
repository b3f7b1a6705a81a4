//! Presence: who leaves leaves no work behind.
use vstd::prelude::*;

use crate::coordination::{DecisionContext, DecisionView, PendingEventView};
use crate::laws::replay;
use crate::model;
use crate::model::StateView;
use crate::ordered;
use crate::protocol::{
    CommandView, EnvironmentManifestView, EventEnvelopeView, LeaveReason, ParticipantId,
    ParticipantView, ReleaseReason, WorkClaimView, WorkId,
};
use crate::sequences;
use crate::time::Timestamp;

verus! {

/// The claims that a run of events releases.
pub open spec fn released(envelopes: Seq<EventEnvelopeView>) -> Set<WorkId> {
    Set::new(
        |id: WorkId|
            exists|i: int|
                0 <= i < envelopes.len() && (#[trigger] envelopes[i]).event is WorkReleased
                    && envelopes[i].event->WorkReleased_work_id == id,
    )
}

/// The participants that leave in a run of events.
pub open spec fn departed(envelopes: Seq<EventEnvelopeView>) -> Set<ParticipantId> {
    Set::new(
        |id: ParticipantId|
            exists|i: int|
                0 <= i < envelopes.len() && (#[trigger] envelopes[i]).event is ParticipantLeft
                    && envelopes[i].event->ParticipantLeft_participant_id == id,
    )
}

/// Whether all events are releases of work and departures.
pub open spec fn only_departures(envelopes: Seq<EventEnvelopeView>) -> bool {
    forall|i: int|
        0 <= i < envelopes.len() ==> (#[trigger] envelopes[i]).event is WorkReleased
            || envelopes[i].event is ParticipantLeft
}

/// Releases and departures remove what they name and leave everything else as it is.
pub proof fn departures_remove_what_they_name(state: StateView, envelopes: Seq<EventEnvelopeView>)
    requires
        only_departures(envelopes),
    ensures
        state.replayed(envelopes).work == state.work.remove_keys(released(envelopes)),
        state.replayed(envelopes).participants == state.participants.remove_keys(
            departed(envelopes),
        ),
        state.replayed(envelopes).signals == state.signals,
        state.replayed(envelopes).resolved_requests == state.resolved_requests,
        state.replayed(envelopes).directions == state.directions,
        state.replayed(envelopes).workspaces == state.workspaces,
        state.replayed(envelopes).metrics == state.metrics,
    decreases envelopes.len(),
{
    if envelopes.len() == 0 {
        assert(state.work.remove_keys(released(envelopes)) =~= state.work);
        assert(state.participants.remove_keys(departed(envelopes)) =~= state.participants);
    } else {
        let init = envelopes.drop_last();
        let last = envelopes.last();
        assert forall|i: int| 0 <= i < init.len() implies (#[trigger] init[i]).event is WorkReleased
            || init[i].event is ParticipantLeft by {
            assert(init[i] == envelopes[i]);
        }
        departures_remove_what_they_name(state, init);
        assert(envelopes[envelopes.len() - 1] == last);
        assert forall|id: WorkId| #[trigger] released(envelopes).contains(id) <==> (released(
            init,
        ).contains(id) || (last.event is WorkReleased && last.event->WorkReleased_work_id == id)) by {
            if released(envelopes).contains(id) {
                let i = choose|i: int|
                    0 <= i < envelopes.len() && (#[trigger] envelopes[i]).event is WorkReleased
                        && envelopes[i].event->WorkReleased_work_id == id;
                if i < init.len() {
                    assert(init[i] == envelopes[i]);
                }
            }
            if released(init).contains(id) {
                let i = choose|i: int|
                    0 <= i < init.len() && (#[trigger] init[i]).event is WorkReleased
                        && init[i].event->WorkReleased_work_id == id;
                assert(envelopes[i] == init[i]);
            }
        }
        assert forall|id: ParticipantId| #[trigger] departed(envelopes).contains(id) <==> (departed(
            init,
        ).contains(id) || (last.event is ParticipantLeft
            && last.event->ParticipantLeft_participant_id == id)) by {
            if departed(envelopes).contains(id) {
                let i = choose|i: int|
                    0 <= i < envelopes.len() && (#[trigger] envelopes[i]).event is ParticipantLeft
                        && envelopes[i].event->ParticipantLeft_participant_id == id;
                if i < init.len() {
                    assert(init[i] == envelopes[i]);
                }
            }
            if departed(init).contains(id) {
                let i = choose|i: int|
                    0 <= i < init.len() && (#[trigger] init[i]).event is ParticipantLeft
                        && init[i].event->ParticipantLeft_participant_id == id;
                assert(envelopes[i] == init[i]);
            }
        }
        let before = state.replayed(init);
        let after = state.replayed(envelopes);
        assert(after.work =~= state.work.remove_keys(released(envelopes)));
        assert(after.participants =~= state.participants.remove_keys(departed(envelopes)));
    }
}

/// The events of a departure: releases of exactly the participant's work, and its leaving.
pub proof fn lemma_departure(
    state: StateView,
    participant: ParticipantView,
    reason: LeaveReason,
    event: PendingEventView,
)
    requires
        state.well_formed(),
    ensures
        state.departure(participant, reason).contains(event) ==> event.scope == participant.scope
            && (event.event is WorkReleased || event.event is ParticipantLeft),
        state.departure(participant, reason).contains(event) && event.event is ParticipantLeft
            ==> event.event->ParticipantLeft_participant_id == participant.id,
        state.departure(participant, reason).contains(event) && event.event is WorkReleased
            ==> state.work.contains_key(event.event->WorkReleased_work_id)
            && state.work[event.event->WorkReleased_work_id].owner == participant.id,
{
    let release_reason = match reason {
        LeaveReason::Graceful => ReleaseReason::ParticipantLeft,
        LeaveReason::LeaseExpired => ReleaseReason::LeaseExpired,
    };
    let all = ordered::in_order::<WorkId, WorkClaimView>(state.work);
    let keys = ordered::listing::<WorkId>(state.work.dom());
    let f = StateView::release_of(participant, release_reason);
    let releases = all.filter_map(f);
    let events = state.departure(participant, reason);
    ordered::lemma_in_order::<WorkId, WorkClaimView>(state.work);
    if events.contains(event) {
        let k = events.index_of(event);
        if k < releases.len() {
            assert(releases[k] == event);
            all.lemma_filter_map_contains(f, event);
            let w = choose|w: WorkClaimView| #[trigger] all.contains(w) && f(w) == Some(event);
            let i = all.index_of(w);
            assert(all[i] == state.work[keys[i]]);
            assert(state.work.contains_key(keys[i]));
        }
    }
}

/// The events of a departure release each piece of the participant's work.
proof fn lemma_departure_complete(
    state: StateView,
    participant: ParticipantView,
    reason: LeaveReason,
    id: WorkId,
) -> (event: PendingEventView)
    requires
        state.well_formed(),
        state.work.contains_key(id),
        state.work[id].owner == participant.id,
    ensures
        state.departure(participant, reason).contains(event),
        event.event is WorkReleased,
        event.event->WorkReleased_work_id == id,
{
    let release_reason = match reason {
        LeaveReason::Graceful => ReleaseReason::ParticipantLeft,
        LeaveReason::LeaseExpired => ReleaseReason::LeaseExpired,
    };
    let all = ordered::in_order::<WorkId, WorkClaimView>(state.work);
    let keys = ordered::listing::<WorkId>(state.work.dom());
    let f = StateView::release_of(participant, release_reason);
    let releases = all.filter_map(f);
    ordered::lemma_in_order::<WorkId, WorkClaimView>(state.work);
    assert(keys.contains(id));
    let i = keys.index_of(id);
    assert(all[i] == state.work[id]);
    sequences::lemma_filter_map_has(all, f, i);
    let event = f(all[i])->0;
    let k = releases.index_of(event);
    assert(state.departure(participant, reason)[k] == event);
    event
}

/// A departure releases all the work of the participant and takes it out of its scope; everything
/// else stays as it is.
pub proof fn departure_releases_all(
    state: StateView,
    participant_id: ParticipantId,
    reason: LeaveReason,
    envelopes: Seq<EventEnvelopeView>,
)
    requires
        state.well_formed(),
        state.participants.contains_key(participant_id),
        model::carries(envelopes, state.departure(state.participants[participant_id], reason)),
    ensures
        state.replayed(envelopes).participants == state.participants.remove(participant_id),
        state.replayed(envelopes).work == state.work.restrict(
            Set::new(
                |id: WorkId|
                    state.work.contains_key(id) && state.work[id].owner != participant_id,
            ),
        ),
        state.replayed(envelopes).signals == state.signals,
        state.replayed(envelopes).resolved_requests == state.resolved_requests,
        state.replayed(envelopes).directions == state.directions,
        state.replayed(envelopes).workspaces == state.workspaces,
        state.replayed(envelopes).metrics == state.metrics,
{
    let participant = state.participants[participant_id];
    let events = state.departure(participant, reason);
    let n = events.len() - 1;
    assert forall|i: int| 0 <= i < envelopes.len() implies (#[trigger] envelopes[i]).event is WorkReleased
        || envelopes[i].event is ParticipantLeft by {
        assert(events.contains(events[i]));
        lemma_departure(state, participant, reason, events[i]);
    }
    departures_remove_what_they_name(state, envelopes);
    assert forall|id: ParticipantId| #[trigger] departed(envelopes).contains(id) <==> id
        == participant_id by {
        assert(envelopes[n].event == events[n].event);
        if departed(envelopes).contains(id) {
            let i = choose|i: int|
                0 <= i < envelopes.len() && (#[trigger] envelopes[i]).event is ParticipantLeft
                    && envelopes[i].event->ParticipantLeft_participant_id == id;
            assert(events.contains(events[i]));
            lemma_departure(state, participant, reason, events[i]);
        }
    }
    assert forall|id: WorkId| state.work.contains_key(id) implies (#[trigger] released(
        envelopes,
    ).contains(id) <==> state.work[id].owner == participant_id) by {
        if released(envelopes).contains(id) {
            let i = choose|i: int|
                0 <= i < envelopes.len() && (#[trigger] envelopes[i]).event is WorkReleased
                    && envelopes[i].event->WorkReleased_work_id == id;
            assert(events.contains(events[i]));
            lemma_departure(state, participant, reason, events[i]);
        }
        if state.work[id].owner == participant_id {
            let event = lemma_departure_complete(state, participant, reason, id);
            let k = events.index_of(event);
            assert(envelopes[k].event == event.event);
        }
    }
    let after = state.replayed(envelopes);
    assert(after.participants =~= state.participants.remove(participant_id));
    assert(after.work =~= state.work.restrict(
        Set::new(
            |id: WorkId| state.work.contains_key(id) && state.work[id].owner != participant_id,
        ),
    ));
}

/// Leaving releases all the participant's work and nobody else's, and can be done once.
pub proof fn leaving_releases_all_work(
    state: StateView,
    participant_id: ParticipantId,
    context: DecisionContext,
    envelopes: Seq<EventEnvelopeView>,
)
    requires
        state.well_formed(),
        state.participants.contains_key(participant_id),
        model::carries(
            envelopes,
            state.decided(CommandView::Leave { participant_id }, context).events(),
        ),
    ensures
        state.decided(CommandView::Leave { participant_id }, context) is Accepted,
        !state.replayed(envelopes).participants.contains_key(participant_id),
        forall|id: WorkId| #[trigger]
            state.replayed(envelopes).work.contains_key(id) <==> state.work.contains_key(id)
                && state.work[id].owner != participant_id,
        state.replayed(envelopes).decided(CommandView::Leave { participant_id }, context)
            is Rejected,
{
    departure_releases_all(state, participant_id, LeaveReason::Graceful, envelopes);
}

/// Expiry takes out exactly those whose lease has ended, with all their work, and leaves nothing
/// more to expire at that time.
pub proof fn expiry_takes_out_the_expired(
    state: StateView,
    now: Timestamp,
    envelopes: Seq<EventEnvelopeView>,
)
    requires
        state.well_formed(),
        model::carries(envelopes, state.expired(now)),
    ensures
        forall|id: ParticipantId| #[trigger]
            state.replayed(envelopes).participants.contains_key(id)
                <==> state.participants.contains_key(id) && now.before(
                state.participants[id].expires_at,
            ),
        forall|id: WorkId| #[trigger]
            state.replayed(envelopes).work.contains_key(id) <==> state.work.contains_key(id) && !(
            state.participants.contains_key(state.work[id].owner) && !now.before(
                state.participants[state.work[id].owner].expires_at,
            )),
        state.replayed(envelopes).work.submap_of(state.work),
        state.replayed(envelopes).participants.submap_of(state.participants),
        state.replayed(envelopes).signals == state.signals,
        state.replayed(envelopes).resolved_requests == state.resolved_requests,
        state.replayed(envelopes).directions == state.directions,
        state.replayed(envelopes).workspaces == state.workspaces,
        state.replayed(envelopes).metrics == state.metrics,
        state.replayed(envelopes).expired(now).len() == 0,
{
    let all = ordered::in_order::<ParticipantId, ParticipantView>(state.participants);
    let keys = ordered::listing::<ParticipantId>(state.participants.dom());
    let f = state.expiry(now);
    let events = state.expired(now);
    ordered::lemma_in_order::<ParticipantId, ParticipantView>(state.participants);
    assert forall|i: int| 0 <= i < envelopes.len() implies (#[trigger] envelopes[i]).event is WorkReleased
        || envelopes[i].event is ParticipantLeft by {
        let p = lemma_expired_by(state, now, i);
        lemma_departure(state, p, LeaveReason::LeaseExpired, events[i]);
    }
    departures_remove_what_they_name(state, envelopes);
    assert forall|id: ParticipantId| state.participants.contains_key(id) implies (
    #[trigger] departed(envelopes).contains(id) <==> !now.before(
        state.participants[id].expires_at,
    )) by {
        if departed(envelopes).contains(id) {
            let i = choose|i: int|
                0 <= i < envelopes.len() && (#[trigger] envelopes[i]).event is ParticipantLeft
                    && envelopes[i].event->ParticipantLeft_participant_id == id;
            let p = lemma_expired_by(state, now, i);
            lemma_departure(state, p, LeaveReason::LeaseExpired, events[i]);
        }
        if !now.before(state.participants[id].expires_at) {
            let p = state.participants[id];
            assert(keys.contains(id));
            let k = keys.index_of(id);
            assert(all[k] == p);
            let departure = state.departure(p, LeaveReason::LeaseExpired);
            let event = departure[departure.len() - 1];
            assert(f(all[k]).contains(event));
            sequences::lemma_flat_map_contains(all, f, event);
            let i = events.index_of(event);
            assert(envelopes[i].event == event.event);
        }
    }
    assert forall|id: WorkId| state.work.contains_key(id) implies (#[trigger] released(
        envelopes,
    ).contains(id) <==> state.participants.contains_key(state.work[id].owner) && !now.before(
        state.participants[state.work[id].owner].expires_at,
    )) by {
        if released(envelopes).contains(id) {
            let i = choose|i: int|
                0 <= i < envelopes.len() && (#[trigger] envelopes[i]).event is WorkReleased
                    && envelopes[i].event->WorkReleased_work_id == id;
            let p = lemma_expired_by(state, now, i);
            lemma_departure(state, p, LeaveReason::LeaseExpired, events[i]);
        }
        let owner = state.work[id].owner;
        if state.participants.contains_key(owner) && !now.before(
            state.participants[owner].expires_at,
        ) {
            let p = state.participants[owner];
            assert(keys.contains(owner));
            let k = keys.index_of(owner);
            assert(all[k] == p);
            let event = lemma_departure_complete(state, p, LeaveReason::LeaseExpired, id);
            assert(f(all[k]).contains(event));
            sequences::lemma_flat_map_contains(all, f, event);
            let i = events.index_of(event);
            assert(envelopes[i].event == event.event);
        }
    }
    let after = state.replayed(envelopes);
    replay::replay_keeps_form(state, envelopes);
    if after.expired(now).len() > 0 {
        let p = lemma_expired_by(after, now, 0);
    }
}

/// The participant whose departure an event of an expiry belongs to.
pub proof fn lemma_expired_by(state: StateView, now: Timestamp, i: int) -> (p: ParticipantView)
    requires
        state.well_formed(),
        0 <= i < state.expired(now).len(),
    ensures
        state.participants.contains_key(p.id),
        state.participants[p.id] == p,
        !now.before(p.expires_at),
        state.departure(p, LeaveReason::LeaseExpired).contains(state.expired(now)[i]),
{
    let all = ordered::in_order::<ParticipantId, ParticipantView>(state.participants);
    let keys = ordered::listing::<ParticipantId>(state.participants.dom());
    let f = state.expiry(now);
    let event = state.expired(now)[i];
    ordered::lemma_in_order::<ParticipantId, ParticipantView>(state.participants);
    assert(state.expired(now).contains(event));
    sequences::lemma_flat_map_contains(all, f, event);
    let k = choose|k: int| 0 <= k < all.len() && f(#[trigger] all[k]).contains(event);
    assert(all[k] == state.participants[keys[k]]);
    assert(state.participants.contains_key(keys[k]));
    all[k]
}

/// Where nothing expires, nobody's lease has ended.
pub proof fn lemma_expiry_is_empty(state: StateView, now: Timestamp, id: ParticipantId)
    requires
        state.well_formed(),
        state.expired(now).len() == 0,
        state.participants.contains_key(id),
    ensures
        now.before(state.participants[id].expires_at),
{
    let all = ordered::in_order::<ParticipantId, ParticipantView>(state.participants);
    let keys = ordered::listing::<ParticipantId>(state.participants.dom());
    let f = state.expiry(now);
    ordered::lemma_in_order::<ParticipantId, ParticipantView>(state.participants);
    assert(keys.contains(id));
    let k = keys.index_of(id);
    assert(all[k] == state.participants[id]);
    if !now.before(state.participants[id].expires_at) {
        let departure = state.departure(all[k], LeaveReason::LeaseExpired);
        let event = departure[departure.len() - 1];
        assert(f(all[k]).contains(event));
        sequences::lemma_flat_map_contains(all, f, event);
    }
}

/// Expiry keeps claims exclusive and all work owned.
pub proof fn expiry_keeps_claims(
    state: StateView,
    now: Timestamp,
    envelopes: Seq<EventEnvelopeView>,
)
    requires
        state.well_formed(),
        model::carries(envelopes, state.expired(now)),
    ensures
        state.exclusive() ==> state.replayed(envelopes).exclusive(),
        state.owned() ==> state.replayed(envelopes).owned(),
{
    expiry_takes_out_the_expired(state, now, envelopes);
    let after = state.replayed(envelopes);
    assert forall|id: WorkId| #[trigger] after.work.contains_key(id) implies after.work[id]
        == state.work[id] && state.work.contains_key(id) by {
        assert(after.work.dom().contains(id));
    }
    assert forall|id: ParticipantId| #[trigger]
        after.participants.contains_key(id) implies after.participants[id]
        == state.participants[id] by {
        assert(after.participants.dom().contains(id));
    }
}

/// A renewal moves the end of the lease and touches neither the work nor the activity of a scope.
pub proof fn renewal_is_quiet(
    state: StateView,
    participant_id: ParticipantId,
    lease_seconds: u64,
    context: DecisionContext,
    envelopes: Seq<EventEnvelopeView>,
)
    requires
        state.decided(
            CommandView::RenewPresence { participant_id, lease_seconds },
            context,
        ) is Accepted,
        model::carries(
            envelopes,
            state.decided(
                CommandView::RenewPresence { participant_id, lease_seconds },
                context,
            ).events(),
        ),
    ensures
        state.replayed(envelopes).participants == state.participants.insert(
            participant_id,
            ParticipantView {
                expires_at: context.now.later(lease_seconds as int),
                ..state.participants[participant_id]
            },
        ),
        state.replayed(envelopes).activity == state.activity,
        state.replayed(envelopes).work == state.work,
        state.replayed(envelopes).signals == state.signals,
        state.replayed(envelopes).directions == state.directions,
{
    replay::replay_of_one(state, envelopes);
}

/// Whoever was let in is present, as given, until the lease that was asked for ends.
pub proof fn newcomers_hold_their_lease(
    state: StateView,
    scope: Seq<char>,
    name: Seq<char>,
    manifest: EnvironmentManifestView,
    lease_seconds: u64,
    context: DecisionContext,
    envelopes: Seq<EventEnvelopeView>,
    at: Timestamp,
)
    requires
        state.joined(scope, name, manifest, lease_seconds, context) is Accepted,
        model::carries(
            envelopes,
            state.joined(scope, name, manifest, lease_seconds, context).events(),
        ),
    ensures
        5 <= lease_seconds <= 300,
        state.replayed(envelopes).participants == state.participants.insert(
            context.participant_id,
            ParticipantView {
                id: context.participant_id,
                scope,
                name,
                manifest,
                joined_at: context.now,
                expires_at: context.now.later(lease_seconds as int),
            },
        ),
        state.replayed(envelopes).live(context.participant_id, at) is Some <==> at.before(
            context.now.later(lease_seconds as int),
        ),
{
    replay::replay_of_one(state, envelopes);
}

/// The participant that a command acts for, where it can act only while it is present.
pub open spec fn actor(command: CommandView) -> Option<ParticipantId> {
    match command {
        CommandView::RenewPresence { participant_id, .. } => Some(participant_id),
        CommandView::ClaimWork { participant_id, .. } => Some(participant_id),
        CommandView::PublishSignal { participant_id, .. } => Some(participant_id),
        CommandView::ResolveAttention { participant_id, .. } => Some(participant_id),
        CommandView::DeliverDirections { participant_id } => Some(participant_id),
        CommandView::ConsumeDirection { participant_id, .. } => Some(participant_id),
        _ => None,
    }
}

/// Nobody acts who is absent or whose lease has ended.
pub proof fn only_the_present_act(
    state: StateView,
    command: CommandView,
    context: DecisionContext,
    id: ParticipantId,
)
    requires
        actor(command) == Some(id),
        state.live(id, context.now) is None,
    ensures
        state.decided(command, context) == DecisionView::Rejected(
            "participant is absent or its lease expired"@,
        ),
{
}

} // verus!
