//! The log: how events are stored and read back, and what a commit answers.
use vstd::prelude::*;

use crate::coordination::{DecisionView, PendingEventView};
use crate::identity;
use crate::laws::requests;
use crate::model::StateView;
use crate::protocol::{
    CommandResultView, DirectionId, EventEnvelopeView, EventKindView, ParticipantId, RequestId, WorkId,
};
use crate::runtime;
use crate::runtime::{PendingAnswer, RuntimeErrorView};
use crate::time;
use crate::time::Timestamp;

verus! {

/// A sequence is read as the number that was stored; a negative number is none.
pub proof fn sequences_are_read_as_stored(value: i64)
    ensures
        value >= 0 ==> runtime::sequence_of(value) is Ok && runtime::sequence_of(value)->Ok_0
            == value,
        value < 0 ==> runtime::sequence_of(value) == Err::<u64, RuntimeErrorView>(
            RuntimeErrorView::InvalidSequence(value),
        ),
{
}

/// An event is read back from its row with every part as it was stored. What cannot be read is told
/// of the first part that fails: the sequence, the identity, the time, the event.
pub proof fn rows_are_read_part_by_part(
    sequence: i64,
    event_id: u128,
    scope: Seq<char>,
    emitted_at: Seq<char>,
    event: Result<EventKindView, Seq<char>>,
)
    ensures
        ({
            let read = runtime::decoded_row(
                sequence,
                identity::uuid_text(event_id),
                scope,
                emitted_at,
                event,
            );
            let at = time::rfc3339_reading(emitted_at);
            &&& sequence >= 0 && at is Ok && event is Ok ==> {
                &&& read is Ok
                &&& read->Ok_0.sequence == sequence
                &&& read->Ok_0.event_id == event_id
                &&& read->Ok_0.scope == scope
                &&& (read->Ok_0.emitted_at.seconds, read->Ok_0.emitted_at.nanos) == at->Ok_0
                &&& read->Ok_0.event == event->Ok_0
            }
            &&& sequence < 0 ==> read == Err::<EventEnvelopeView, RuntimeErrorView>(
                RuntimeErrorView::InvalidSequence(sequence),
            )
            &&& sequence >= 0 && at is Err ==> read == Err::<EventEnvelopeView, RuntimeErrorView>(
                RuntimeErrorView::Serialization(at->Err_0),
            )
            &&& sequence >= 0 && at is Ok && event is Err ==> read == Err::<
                EventEnvelopeView,
                RuntimeErrorView,
            >(RuntimeErrorView::Serialization(event->Err_0))
        }),
{
    identity::identity_text_reads_back(event_id);
}

/// A row whose identity is none is refused with what is wrong with the identity, unless its sequence
/// is refused already.
pub proof fn rows_need_an_identity(
    sequence: i64,
    event_id: Seq<char>,
    scope: Seq<char>,
    emitted_at: Seq<char>,
    event: Result<EventKindView, Seq<char>>,
)
    requires
        sequence >= 0,
        identity::uuid_number(event_id) is None,
    ensures
        runtime::decoded_row(sequence, event_id, scope, emitted_at, event) == Err::<
            EventEnvelopeView,
            RuntimeErrorView,
        >(RuntimeErrorView::Serialization(identity::uuid_complaint(event_id))),
{
}

/// An event is committed as it was decided, under the identity, the sequence and the time that it
/// was given.
pub proof fn events_are_committed_as_decided(
    pending: PendingEventView,
    event_id: u128,
    sequence: u64,
    emitted_at: Timestamp,
)
    ensures
        ({
            let sealed = runtime::enveloped(pending, event_id, sequence, emitted_at);
            &&& sealed.sequence == sequence
            &&& sealed.event_id == event_id
            &&& sealed.scope == pending.scope
            &&& sealed.emitted_at == emitted_at
            &&& sealed.event == pending.event
        }),
{
}

/// A page takes up the events of its scope behind the sequence that was asked for, in the order of
/// the log, until it holds 1000 of them.
pub proof fn pages_take_up_events_in_order(
    log: Seq<EventEnvelopeView>,
    next: EventEnvelopeView,
    scope: Seq<char>,
    after: u64,
)
    ensures
        runtime::page_of(Seq::empty(), scope, after).len() == 0,
        ({
            let page = runtime::page_of(log, scope, after);
            let grown = runtime::page_of(log.push(next), scope, after);
            &&& page.len() < 1000 && next.scope == scope && next.sequence > after ==> grown
                == page.push(next)
            &&& page.len() >= 1000 || next.scope != scope || next.sequence <= after ==> grown
                == page
        }),
{
    let p = runtime::behind(scope, after);
    reveal(Seq::filter);
    assert(log.push(next).drop_last() =~= log);
    let before = log.filter(p);
    assert(log.push(next).filter(p) == (if p(next) {
        before.push(next)
    } else {
        before
    }));
    let page = runtime::page_of(log, scope, after);
    let grown = runtime::page_of(log.push(next), scope, after);
    if page.len() >= 1000 {
        assert(grown =~= page);
    }
}

/// The request that the signal of an event makes, if the event is a signal that makes one.
pub open spec fn asked_by(event: EventKindView) -> Option<RequestId> {
    match event {
        EventKindView::SignalPublished { published } => match requests::parts_of(
            published.signal,
        ).2 {
            Some(identity) => Some(identity.request_id),
            None => None,
        },
        _ => None,
    }
}

/// A commit is answered with what was decided and where it stands in the log: who joined, what work
/// was claimed and the first request among the events; or what stood in the way; or why not.
pub proof fn answers_say_what_was_decided(decision: DecisionView, sequences: Seq<u64>, at: int)
    ensures
        ({
            let answer = runtime::answer_to(decision, sequences);
            &&& decision is Accepted <==> answer is Accepted
            &&& decision is Conflict <==> answer is Conflict
            &&& decision is Accepted ==> {
                let events = decision->Accepted_events;
                &&& answer->Accepted_participant_id == decision->Accepted_participant_id
                &&& answer->Accepted_work_id == decision->Accepted_work_id
                &&& answer->Accepted_event_sequences == sequences
                &&& 0 <= at < events.len() && asked_by(events[at].event) is Some && (forall|i: int|
                    0 <= i < at ==> asked_by((#[trigger] events[i]).event) is None)
                    ==> answer->Accepted_request_id == asked_by(events[at].event)
                &&& (forall|i: int|
                    0 <= i < events.len() ==> asked_by((#[trigger] events[i]).event) is None)
                    ==> answer->Accepted_request_id is None
            }
            &&& decision is Conflict ==> answer == (CommandResultView::Conflict {
                conflicts: decision->conflicts,
                event_sequences: sequences,
            })
            &&& decision is Rejected ==> answer == (CommandResultView::Rejected {
                reason: decision->Rejected_0,
            })
        }),
{
    if decision is Accepted {
        lemma_first_asked(decision->Accepted_events, at);
    }
}

proof fn lemma_first_asked(events: Seq<PendingEventView>, at: int)
    ensures
        0 <= at < events.len() && asked_by(events[at].event) is Some && (forall|i: int|
            0 <= i < at ==> asked_by((#[trigger] events[i]).event) is None)
            ==> runtime::published_request(events) == asked_by(events[at].event),
        (forall|i: int| 0 <= i < events.len() ==> asked_by((#[trigger] events[i]).event) is None)
            ==> runtime::published_request(events) is None,
    decreases events.len(),
{
    if events.len() > 0 {
        let init = events.drop_last();
        lemma_first_asked(init, at);
        assert(forall|i: int| 0 <= i < init.len() ==> #[trigger] init[i] == events[i]);
        assert(runtime::request_in(events.last().event) == asked_by(events.last().event));
        if forall|i: int| 0 <= i < init.len() ==> asked_by((#[trigger] events[i]).event) is None {
            assert forall|i: int| 0 <= i < init.len() implies asked_by(
                (#[trigger] init[i]).event,
            ) is None by {
                assert(init[i] == events[i]);
            }
        }
        if 0 <= at < init.len() && asked_by(events[at].event) is Some && (forall|i: int|
            0 <= i < at ==> asked_by((#[trigger] events[i]).event) is None) {
            assert forall|i: int| 0 <= i < at implies asked_by((#[trigger] init[i]).event) is None by {
                assert(init[i] == events[i]);
            }
            assert(init[at] == events[at]);
        }
    }
}

/// The sequences of an answer are those of the events, one for one.
pub proof fn answers_list_sequences_in_order(envelopes: Seq<EventEnvelopeView>)
    ensures
        runtime::sequences_of(envelopes).len() == envelopes.len(),
        forall|i: int|
            0 <= i < envelopes.len() ==> (#[trigger] runtime::sequences_of(envelopes)[i])
                == envelopes[i].sequence,
{
}

/// The answer that a decision is owed gives back who joined or acted, what work it was about and what
/// stood in the way, with the sequences of its events.
pub proof fn owed_answers_are_those_of_the_decision(
    pending: PendingAnswer,
    decision: DecisionView,
    sequences: Seq<u64>,
)
    requires
        pending.owed_for(decision),
    ensures
        !(decision is Rejected),
        decision is Accepted ==> {
            let given = pending.answered(sequences);
            &&& given is Accepted
            &&& given->Accepted_participant_id == decision->Accepted_participant_id
            &&& given->Accepted_work_id == decision->Accepted_work_id
            &&& given->Accepted_event_sequences == sequences
        },
        decision is Conflict ==> pending.answered(sequences) == (CommandResultView::Conflict {
            conflicts: decision->conflicts,
            event_sequences: sequences,
        }),
{
    assert(pending.answered(sequences) == runtime::answer_to(decision, sequences));
}

/// An answer that waits for its events is given with all that it held, and with their sequences.
pub proof fn waiting_answers_are_given_whole(pending: PendingAnswer, sequences: Seq<u64>)
    ensures
        match pending {
            PendingAnswer::Accepted { participant_id, work_id, request_id } => {
                let given = pending.answered(sequences);
                &&& given is Accepted
                &&& given->Accepted_participant_id == participant_id
                &&& given->Accepted_work_id == work_id
                &&& given->Accepted_request_id == request_id
                &&& given->Accepted_event_sequences == sequences
            },
            PendingAnswer::Conflict { conflicts } => {
                let given = pending.answered(sequences);
                &&& given is Conflict
                &&& given->Conflict_conflicts == conflicts.deep_view()
                &&& given->Conflict_event_sequences == sequences
            },
        },
{
}

/// The events of a decision are those that it was accepted or refused with; a rejection has none.
pub proof fn decisions_hold_their_events(decision: DecisionView)
    ensures
        decision is Accepted ==> decision.events() == decision->Accepted_events,
        decision is Conflict ==> decision.events() == decision->Conflict_events,
        decision is Rejected ==> decision.events().len() == 0,
{
}

/// Envelopes continue a log where each has a higher sequence than the one before it, and the first a
/// higher one than all that are in the log.
pub proof fn logs_go_forward(state: StateView, envelopes: Seq<EventEnvelopeView>)
    ensures
        state.continued_by(envelopes) <==> {
            &&& envelopes.len() > 0 ==> state.last_sequence < envelopes[0].sequence
            &&& forall|i: int|
                0 < i < envelopes.len() ==> envelopes[i - 1].sequence < (
                #[trigger] envelopes[i]).sequence
        },
{
    if forall|i: int|
        0 < i < envelopes.len() ==> envelopes[i - 1].sequence < (#[trigger] envelopes[i]).sequence {
        assert forall|i: int, j: int| 0 <= i < j < envelopes.len() implies (
        #[trigger] envelopes[i]).sequence < (#[trigger] envelopes[j]).sequence by {
            lemma_steps_up(envelopes, i, j);
        }
        if envelopes.len() > 0 && state.last_sequence < envelopes[0].sequence {
            assert forall|i: int| 0 <= i < envelopes.len() implies state.last_sequence < (
            #[trigger] envelopes[i]).sequence by {
                if i > 0 {
                    assert(envelopes[0].sequence < envelopes[i].sequence);
                }
            }
        }
    }
    if state.continued_by(envelopes) {
        assert forall|i: int| 0 < i < envelopes.len() implies envelopes[i - 1].sequence < (
        #[trigger] envelopes[i]).sequence by {
            assert(envelopes[i - 1].sequence < envelopes[i].sequence);
        }
    }
}

proof fn lemma_steps_up(envelopes: Seq<EventEnvelopeView>, i: int, j: int)
    requires
        0 <= i < j < envelopes.len(),
        forall|k: int|
            0 < k < envelopes.len() ==> envelopes[k - 1].sequence < (
            #[trigger] envelopes[k]).sequence,
    ensures
        envelopes[i].sequence < envelopes[j].sequence,
    decreases j - i,
{
    assert(envelopes[j - 1].sequence < envelopes[j].sequence);
    if i < j - 1 {
        lemma_steps_up(envelopes, i, j - 1);
    }
}

/// At the start nothing is known, nobody is present and nothing is claimed; without events it stays
/// so.
pub proof fn nothing_is_known_at_the_start(scope: Seq<char>)
    ensures
        ({
            let start = StateView::empty().replayed(Seq::empty());
            &&& start.scopes == Set::<Seq<char>>::empty()
            &&& !start.scope_sequences.contains_key(scope)
            &&& !start.activity.contains_key(scope)
            &&& !start.workspaces.contains_key(scope)
            &&& start.participants.dom() == Set::<ParticipantId>::empty()
            &&& start.work.dom() == Set::<WorkId>::empty()
            &&& start.signals.len() == 0
            &&& start.resolved_requests == Set::<RequestId>::empty()
            &&& start.directions.dom() == Set::<DirectionId>::empty()
            &&& start.metrics_of(scope).prevented_overlaps == 0
            &&& start.metrics_of(scope).human_interventions == 0
            &&& start.last_sequence == 0
        }),
{
}

/// An event can be applied unless the counter that it raises is at its highest.
pub proof fn full_counters_stop_their_events(state: StateView, envelope: EventEnvelopeView)
    ensures
        state.has_room(envelope) <==> {
            &&& envelope.event is OverlapDetected ==> state.metrics_of(
                envelope.scope,
            ).prevented_overlaps != u64::MAX
            &&& envelope.event is HumanIntervened || envelope.event is DirectionIssued
                ==> state.metrics_of(envelope.scope).human_interventions != u64::MAX
        },
{
}

/// A point in time as the number of its nanoseconds.
pub open spec fn instant(at: Timestamp) -> int {
    at.seconds * 1_000_000_000 + at.nanos
}

/// Points outside leap seconds are ordered by their nanoseconds, and whole seconds are added to
/// them; out of a leap second the fraction goes into the second behind it. No point lies behind the
/// last second of the calendar.
pub proof fn time_runs_by_nanoseconds(a: Timestamp, b: Timestamp, seconds: int)
    ensures
        a.nanos < 1_000_000_000 && b.nanos < 1_000_000_000 ==> (a.before(b) <==> instant(a)
            < instant(b)),
        a.seconds == b.seconds ==> (a.before(b) <==> a.nanos < b.nanos),
        a.seconds < b.seconds ==> a.before(b) && !b.before(a),
        a.has_room(seconds) && seconds >= 0 && a.nanos < 1_000_000_000 ==> instant(a.later(seconds))
            == instant(a) + seconds * 1_000_000_000,
        a.has_room(seconds) && seconds >= 0 && a.nanos >= 1_000_000_000 ==> instant(
            a.later(seconds),
        ) == instant(a) + (seconds - 1) * 1_000_000_000,
        a.has_room(seconds) <==> a.valid() && a.seconds + seconds <= 8_210_266_876_799,
        a.valid() ==> -8_334_601_228_800 <= a.seconds <= 8_210_266_876_799 && a.nanos
            < 2_000_000_000,
        -8_334_601_228_800 <= a.seconds <= 8_210_266_876_799 && a.nanos < 1_000_000_000
            ==> a.valid(),
        a.valid() && a.nanos >= 1_000_000_000 ==> (a.seconds + 1) % 60 == 0,
        -8_334_601_228_800 <= a.seconds <= 8_210_266_876_799 && a.nanos < 2_000_000_000 && (
        a.seconds + 1) % 60 == 0 ==> a.valid(),
{
}

} // verus!
