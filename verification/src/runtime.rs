//! The runtime: the log of events around the state of coordination.
use vstd::prelude::*;

use crate::coordination::{
    CoordinationState, Decision, DecisionContext, DecisionView, PendingEvent, PendingEventView,
};
use crate::identity;
use crate::laws;
use crate::model;
use crate::model::StateView;
use crate::outcome;
use crate::protocol::{
    AttentionItem, Command, CommandResult, CommandResultView, CommandView, Conflict, Direction,
    EventEnvelope, EventEnvelopeView, EventKind, EventKindView, ParticipantId, RequestId,
    ScopeSnapshot, WorkId, WorkspaceSummary,
};
use crate::sequences;
use crate::text;
use crate::time;
use crate::time::Timestamp;

verus! {

/// Why the runtime failed.
#[derive(Clone, Debug, Eq, PartialEq)]
pub enum RuntimeError {
    Stopped,
    Store(String),
    Serialization(String),
    InvalidSequence(i64),
}

/// What [`RuntimeError`] stands for.
#[verifier::ext_equal]
pub enum RuntimeErrorView {
    Stopped,
    Store(Seq<char>),
    Serialization(Seq<char>),
    InvalidSequence(i64),
}

impl View for RuntimeError {
    type V = RuntimeErrorView;

    open spec fn view(&self) -> RuntimeErrorView {
        match self {
            RuntimeError::Stopped => RuntimeErrorView::Stopped,
            RuntimeError::Store(x) => RuntimeErrorView::Store(x.deep_view()),
            RuntimeError::Serialization(x) => RuntimeErrorView::Serialization(x.deep_view()),
            RuntimeError::InvalidSequence(x) => RuntimeErrorView::InvalidSequence(*x),
        }
    }
}

impl DeepView for RuntimeError {
    type V = RuntimeErrorView;

    open spec fn deep_view(&self) -> RuntimeErrorView {
        self.view()
    }
}

impl RuntimeErrorView {
    /// What a human is told.
    pub open spec fn message(self) -> Seq<char> {
        match self {
            RuntimeErrorView::Stopped => "coordination runtime stopped"@,
            RuntimeErrorView::Store(reason) => "event store failed: "@ + reason,
            RuntimeErrorView::Serialization(reason) => "event serialization failed: "@ + reason,
            RuntimeErrorView::InvalidSequence(value) => "stored event has a negative sequence: "@
                + text::signed_text(value as int),
        }
    }
}

impl RuntimeError {
    /// What a human is told.
    pub fn message(&self) -> (r: String)
        ensures
            r@ == self@.message(),
    {
        match self {
            RuntimeError::Stopped => "coordination runtime stopped".to_owned(),
            RuntimeError::Store(reason) => text::concat("event store failed: ", reason.as_str()),
            RuntimeError::Serialization(reason) => text::concat(
                "event serialization failed: ",
                reason.as_str(),
            ),
            RuntimeError::InvalidSequence(value) => text::concat(
                "stored event has a negative sequence: ",
                text::signed_decimal(*value).as_str(),
            ),
        }
    }
}

/// The sequence that a row number of the store stands for.
pub open spec fn sequence_of(value: i64) -> Result<u64, RuntimeErrorView> {
    if value < 0 {
        Err(RuntimeErrorView::InvalidSequence(value))
    } else {
        Ok(value as u64)
    }
}

/// The sequence that a row number of the store stands for.
pub fn sequence(value: i64) -> (r: Result<u64, RuntimeError>)
    ensures
        outcome::seen(r) == sequence_of(value),
{
    if value < 0 {
        Err(RuntimeError::InvalidSequence(value))
    } else {
        Ok(value as u64)
    }
}

/// The columns of a new row of the store, but for the event itself.
#[derive(Clone, Debug, Eq, PartialEq)]
pub struct NewRow {
    pub event_id: String,
    pub scope: String,
    pub emitted_at: String,
}

/// The columns of a row of the store, but for the event itself.
#[derive(Clone, Debug, Eq, PartialEq)]
pub struct EventRow {
    pub sequence: i64,
    pub event_id: String,
    pub scope: String,
    pub emitted_at: String,
}

/// What the columns of a row stand for.
pub open spec fn decoded_row(
    sequence: i64,
    event_id: Seq<char>,
    scope: Seq<char>,
    emitted_at: Seq<char>,
    event: Result<EventKindView, Seq<char>>,
) -> Result<EventEnvelopeView, RuntimeErrorView> {
    match (
        sequence_of(sequence),
        identity::uuid_number(event_id),
        time::rfc3339_reading(emitted_at),
        event,
    ) {
        (Err(error), _, _, _) => Err(error),
        (Ok(_), None, _, _) => Err(
            RuntimeErrorView::Serialization(identity::uuid_complaint(event_id)),
        ),
        (Ok(_), Some(_), Err(reason), _) => Err(RuntimeErrorView::Serialization(reason)),
        (Ok(_), Some(_), Ok(_), Err(reason)) => Err(RuntimeErrorView::Serialization(reason)),
        (Ok(sequence), Some(event_id), Ok((seconds, nanos)), Ok(event)) => Ok(
            EventEnvelopeView {
                sequence,
                event_id: event_id as u128,
                scope,
                emitted_at: Timestamp { seconds, nanos },
                event,
            },
        ),
    }
}

/// The row of an event that goes into the store. Where the year has four digits, the row stands
/// for the event in its envelope once the store has given it a number.
pub fn new_row(pending: &PendingEvent, event_id: u128, emitted_at: Timestamp) -> (r: NewRow)
    requires
        emitted_at.valid(),
    ensures
        r.event_id@ == identity::uuid_text(event_id),
        r.scope@ == pending@.scope,
        r.emitted_at@ == time::rfc3339_text(emitted_at.seconds, emitted_at.nanos),
        time::YEAR_ZERO <= emitted_at.seconds <= time::YEAR_9999 ==> forall|row: i64|
            row >= 0 ==> #[trigger] decoded_row(
                row,
                r.event_id@,
                r.scope@,
                r.emitted_at@,
                Ok(pending@.event),
            ) == Ok::<EventEnvelopeView, RuntimeErrorView>(
                enveloped(pending@, event_id, row as u64, emitted_at),
            ),
{
    proof {
        identity::identity_text_reads_back(event_id);
    }
    NewRow {
        event_id: identity::event_id_text(event_id),
        scope: pending.scope.clone(),
        emitted_at: emitted_at.to_rfc3339(),
    }
}

/// An event in its envelope.
pub open spec fn enveloped(
    pending: PendingEventView,
    event_id: u128,
    sequence: u64,
    emitted_at: Timestamp,
) -> EventEnvelopeView {
    EventEnvelopeView {
        sequence,
        event_id,
        scope: pending.scope,
        emitted_at,
        event: pending.event,
    }
}

/// Puts an event into its envelope, once the store has given it a number.
pub fn seal(pending: PendingEvent, event_id: u128, row: i64, emitted_at: Timestamp) -> (r: Result<
    EventEnvelope,
    RuntimeError,
>)
    ensures
        outcome::seen(r) == (match sequence_of(row) {
            Ok(sequence) => Ok(enveloped(pending@, event_id, sequence, emitted_at)),
            Err(error) => Err(error),
        }),
{
    match sequence(row) {
        Ok(sequence) => Ok(
            EventEnvelope {
                sequence,
                event_id,
                scope: pending.scope,
                emitted_at,
                event: pending.event,
            },
        ),
        Err(error) => Err(error),
    }
}

/// Reads a row of the store. The event itself has been decoded before, or not, for a reason.
pub fn decode_row(row: EventRow, event: Result<EventKind, String>) -> (r: Result<
    EventEnvelope,
    RuntimeError,
>)
    ensures
        outcome::seen(r) == decoded_row(
            row.sequence,
            row.event_id@,
            row.scope@,
            row.emitted_at@,
            outcome::seen(event),
        ),
{
    let number: u64 = match sequence(row.sequence) {
        Ok(number) => number,
        Err(error) => return Err(error),
    };
    let event_id: u128 = match identity::parse_event_id(row.event_id.as_str()) {
        Ok(event_id) => event_id,
        Err(error) => return Err(RuntimeError::Serialization(error.reason)),
    };
    let emitted_at = match Timestamp::parse_from_rfc3339(row.emitted_at.as_str()) {
        Ok(emitted_at) => emitted_at,
        Err(error) => return Err(RuntimeError::Serialization(error.reason)),
    };
    match event {
        Ok(event) => Ok(
            EventEnvelope { sequence: number, event_id, scope: row.scope, emitted_at, event },
        ),
        Err(reason) => Err(RuntimeError::Serialization(reason)),
    }
}

/// The most events that are read from the log at once.
pub const PAGE_LENGTH: usize = 1000;

/// The events of a scope behind a sequence.
pub open spec fn behind(scope: Seq<char>, after: u64) -> spec_fn(EventEnvelopeView) -> bool {
    |envelope: EventEnvelopeView| envelope.scope == scope && envelope.sequence > after
}

/// The first events, as many as are read at once.
pub open spec fn first_page(events: Seq<EventEnvelopeView>) -> Seq<EventEnvelopeView> {
    if events.len() > PAGE_LENGTH {
        events.take(PAGE_LENGTH as int)
    } else {
        events
    }
}

/// What is read of a log at once: the first events of a scope behind a sequence.
pub open spec fn page_of(log: Seq<EventEnvelopeView>, scope: Seq<char>, after: u64) -> Seq<
    EventEnvelopeView,
> {
    first_page(log.filter(behind(scope, after)))
}

/// Reads the first events of a scope behind a sequence.
pub fn page(events: Vec<EventEnvelope>, scope: &str, after: u64) -> (r: Vec<EventEnvelope>)
    ensures
        r.deep_view() == page_of(events.deep_view(), scope@, after),
{
    let ghost all = events.deep_view();
    let ghost p = behind(scope@, after);
    let ghost mut seen: int = 0;
    let mut kept = events;
    let mut i: usize = 0;
    proof {
        reveal(Seq::filter);
        assert(all.take(0) =~= Seq::<EventEnvelopeView>::empty());
        assert(all.take(0).filter(p) + all.skip(0) =~= all);
    }
    while i < kept.len()
        invariant
            p == behind(scope@, after),
            0 <= seen <= all.len(),
            i <= kept.len(),
            kept.deep_view() == all.take(seen).filter(p) + all.skip(seen),
            i == all.take(seen).filter(p).len(),
        decreases kept.len() - i,
    {
        let ghost before = kept.deep_view();
        proof {
            sequences::lemma_filter_take(all, p, seen);
            assert(before.len() == kept.len());
            assert(before[i as int] == all[seen]);
            assert(before[i as int] == kept@[i as int].deep_view());
        }
        if text::same(kept[i].scope.as_str(), scope) && kept[i].sequence > after {
            assert(before =~= all.take(seen + 1).filter(p) + all.skip(seen + 1));
            i = i + 1;
        } else {
            kept.remove(i);
            assert(kept.deep_view() =~= before.remove(i as int));
            assert(kept.deep_view() =~= all.take(seen + 1).filter(p) + all.skip(seen + 1));
        }
        proof {
            seen = seen + 1;
        }
    }
    assert(seen == all.len());
    assert(all.take(seen) =~= all);
    assert(kept.deep_view() =~= all.filter(p));
    if kept.len() > PAGE_LENGTH {
        kept.truncate(PAGE_LENGTH);
        assert(kept.deep_view() =~= all.filter(p).take(PAGE_LENGTH as int));
    }
    kept
}

proof fn lemma_later_ascend(log: Seq<EventEnvelopeView>, p: spec_fn(EventEnvelopeView) -> bool)
    requires
        StateView::empty().continued_by(log),
    ensures
        StateView::empty().continued_by(log.filter(p)),
    decreases log.len(),
{
    reveal(Seq::filter);
    if log.len() > 0 {
        let init = log.drop_last();
        let n = log.len() - 1;
        assert forall|i: int| 0 <= i < init.len() implies #[trigger] init[i] == log[i] by {}
        lemma_later_ascend(init, p);
        let before = init.filter(p);
        let all = log.filter(p);
        assert(log.last() == log[n]);
        assert forall|i: int, j: int| 0 <= i < j < all.len() implies (#[trigger] all[i]).sequence < (
        #[trigger] all[j]).sequence by {
            assert(all[i] == before[i]);
            if j < before.len() {
                assert(all[j] == before[j]);
            } else {
                assert(before.contains(before[i]));
                init.lemma_filter_contains_rev(p, before[i]);
                let k = init.index_of(before[i]);
                assert(log[k].sequence < log[n].sequence);
            }
        }
        assert forall|i: int| 0 <= i < all.len() implies 0 < (#[trigger] all[i]).sequence by {
            if i < before.len() {
                assert(all[i] == before[i]);
            }
        }
    }
}

/// Pages lead through the log: a page that is not full is the last, and behind a full one the next
/// begins where it ends, with no event left out or read twice.
pub proof fn pages_lead_through_the_log(log: Seq<EventEnvelopeView>, scope: Seq<char>, after: u64)
    requires
        StateView::empty().continued_by(log),
    ensures
        ({
            let page = page_of(log, scope, after);
            let later = log.filter(behind(scope, after));
            &&& page.len() <= PAGE_LENGTH
            &&& page.len() < PAGE_LENGTH ==> page == later
            &&& page.len() == PAGE_LENGTH ==> later == page + log.filter(
                behind(scope, page.last().sequence),
            )
        }),
{
    let p = behind(scope, after);
    let page = page_of(log, scope, after);
    let later = log.filter(p);
    if page.len() == PAGE_LENGTH {
        let n = PAGE_LENGTH as int;
        let q = behind(scope, page.last().sequence);
        let rest = later.skip(n);
        assert(page =~= later.take(n));
        lemma_later_ascend(log, p);
        assert forall|i: int| 0 <= i < later.len() implies p(#[trigger] later[i]) by {
            log.lemma_filter_pred(p, i);
        }
        assert(page.last() == later[n - 1]);
        assert(p(later[n - 1]));
        sequences::lemma_filter_narrower(log, p, q);
        assert(later =~= page + rest);
        Seq::filter_distributes_over_add(page, rest, q);
        assert forall|i: int| 0 <= i < page.len() implies !q(#[trigger] page[i]) by {
            assert(page[i] == later[i]);
            if i < n - 1 {
                assert(later[i].sequence < later[n - 1].sequence);
            }
        }
        sequences::lemma_filter_none(page, q);
        assert forall|i: int| 0 <= i < rest.len() implies q(#[trigger] rest[i]) by {
            assert(rest[i] == later[n + i]);
            assert(p(later[n + i]));
            assert(later[n - 1].sequence < later[n + i].sequence);
        }
        sequences::lemma_filter_all(rest, q);
        assert(page.filter(q) + rest.filter(q) =~= rest);
    }
}

/// A page rests on the log alone: what is committed later stands behind what it held, and to read it
/// again from its own events gives it back.
pub proof fn pages_keep_what_they_hold(
    log: Seq<EventEnvelopeView>,
    committed: Seq<EventEnvelopeView>,
    scope: Seq<char>,
    after: u64,
)
    ensures
        page_of(log + committed, scope, after) == first_page(
            log.filter(behind(scope, after)) + committed.filter(behind(scope, after)),
        ),
        page_of(log, scope, after).is_prefix_of(page_of(log + committed, scope, after)),
        page_of(page_of(log, scope, after), scope, after) == page_of(log, scope, after),
{
    let p = behind(scope, after);
    let page = page_of(log, scope, after);
    Seq::filter_distributes_over_add(log, committed, p);
    assert forall|i: int| 0 <= i < page.len() implies p(#[trigger] page[i]) by {
        log.lemma_filter_pred(p, i);
        assert(page[i] == log.filter(p)[i]);
    }
    sequences::lemma_filter_all(page, p);
    let grown = page_of(log + committed, scope, after);
    assert(page =~= grown.subrange(0, page.len() as int));
}

/// The request that the first published request among some events makes.
pub open spec fn published_request(events: Seq<PendingEventView>) -> Option<RequestId>
    decreases events.len(),
{
    if events.len() == 0 {
        None
    } else {
        match published_request(events.drop_last()) {
            Some(request_id) => Some(request_id),
            None => request_in(events.last().event),
        }
    }
}

/// The request that an event publishes.
pub open spec fn request_in(event: EventKindView) -> Option<RequestId> {
    match event {
        EventKindView::SignalPublished { published } => match published.signal.request_identity() {
            Some(identity) => Some(identity.request_id),
            None => None,
        },
        _ => None,
    }
}

/// The request that the first published request among some events makes.
fn find_published_request(events: &Vec<PendingEvent>) -> (r: Option<RequestId>)
    ensures
        r == published_request(events.deep_view()),
{
    let ghost all = events.deep_view();
    let mut found: Option<RequestId> = None;
    let mut i: usize = 0;
    assert(all.take(0) == Seq::<PendingEventView>::empty());
    while i < events.len()
        invariant
            i <= events.len(),
            all == events.deep_view(),
            found == published_request(all.take(i as int)),
        decreases events.len() - i,
    {
        assert(all.take(i + 1).drop_last() == all.take(i as int));
        assert(all.take(i + 1).last() == events@[i as int]@);
        if found.is_none() {
            if let EventKind::SignalPublished { published } = &events[i].event {
                if let Some(identity) = published.signal.request_identity() {
                    found = Some(identity.request_id);
                }
            }
        }
        i = i + 1;
    }
    assert(all.take(i as int) == all);
    found
}

/// The answer to a command, once its events have their sequences.
pub open spec fn answer_to(decision: DecisionView, sequences: Seq<u64>) -> CommandResultView {
    match decision {
        DecisionView::Accepted { events, participant_id, work_id } => CommandResultView::Accepted {
            participant_id,
            work_id,
            request_id: published_request(events),
            event_sequences: sequences,
        },
        DecisionView::Conflict { events, conflicts } => CommandResultView::Conflict {
            conflicts,
            event_sequences: sequences,
        },
        DecisionView::Rejected(reason) => CommandResultView::Rejected { reason },
    }
}

/// The sequences of some envelopes.
pub open spec fn sequences_of(envelopes: Seq<EventEnvelopeView>) -> Seq<u64> {
    envelopes.map_values(|envelope: EventEnvelopeView| envelope.sequence)
}

/// What is owed to the caller of a command whose events go into the store first.
#[derive(Clone, Debug)]
pub enum PendingAnswer {
    Accepted {
        participant_id: Option<ParticipantId>,
        work_id: Option<WorkId>,
        request_id: Option<RequestId>,
    },
    Conflict { conflicts: Vec<Conflict> },
}

impl PendingAnswer {
    /// The answer, once the events have their sequences.
    pub open spec fn answered(self, sequences: Seq<u64>) -> CommandResultView {
        match self {
            PendingAnswer::Accepted { participant_id, work_id, request_id } =>
                CommandResultView::Accepted {
                participant_id,
                work_id,
                request_id,
                event_sequences: sequences,
            },
            PendingAnswer::Conflict { conflicts } => CommandResultView::Conflict {
                conflicts: conflicts.deep_view(),
                event_sequences: sequences,
            },
        }
    }

    /// Whether this is owed for a decision.
    pub open spec fn owed_for(self, decision: DecisionView) -> bool {
        forall|sequences: Seq<u64>| #[trigger]
            self.answered(sequences) == answer_to(decision, sequences)
    }
}

/// What a decision asks of the store.
#[derive(Clone, Debug)]
pub enum Commit {
    /// The events go into the log, then the answer is given.
    Append { events: Vec<PendingEvent>, answer: PendingAnswer },
    /// Nothing goes into the log.
    Answer(CommandResult),
}

/// What a decision asks of the store: a rejection is answered at once, and the events of any other
/// decision go into the log first.
pub fn prepare(decision: Decision) -> (r: Commit)
    ensures
        match r {
            Commit::Append { events, answer } => !(decision@ is Rejected) && events.deep_view()
                == decision@.events() && answer.owed_for(decision@),
            Commit::Answer(result) => decision@ is Rejected && result@ == answer_to(
                decision@,
                Seq::empty(),
            ),
        },
{
    match decision {
        Decision::Accepted { events, participant_id, work_id } => {
            let request_id = find_published_request(&events);
            Commit::Append {
                events,
                answer: PendingAnswer::Accepted { participant_id, work_id, request_id },
            }
        },
        Decision::Conflict { events, conflicts } => Commit::Append {
            events,
            answer: PendingAnswer::Conflict { conflicts },
        },
        Decision::Rejected(reason) => Commit::Answer(CommandResult::Rejected { reason }),
    }
}

/// The answer to a command whose events are in the log.
pub fn answer(pending: PendingAnswer, committed: &Vec<EventEnvelope>) -> (r: CommandResult)
    ensures
        r@ == pending.answered(sequences_of(committed.deep_view())),
{
    let ghost all = committed.deep_view();
    let mut event_sequences: Vec<u64> = Vec::new();
    let mut i: usize = 0;
    while i < committed.len()
        invariant
            i <= committed.len(),
            all == committed.deep_view(),
            event_sequences.deep_view() == sequences_of(all.take(i as int)),
        decreases committed.len() - i,
    {
        let ghost before = event_sequences.deep_view();
        event_sequences.push(committed[i].sequence);
        assert(event_sequences.deep_view() == before.push(all[i as int].sequence));
        assert(all.take(i + 1) == all.take(i as int).push(all[i as int]));
        i = i + 1;
    }
    assert(all.take(i as int) == all);
    match pending {
        PendingAnswer::Accepted { participant_id, work_id, request_id } => CommandResult::Accepted {
            participant_id,
            work_id,
            request_id,
            event_sequences,
        },
        PendingAnswer::Conflict { conflicts } => CommandResult::Conflict {
            conflicts,
            event_sequences,
        },
    }
}

impl CoordinationState {
    /// Whether envelopes continue the log.
    pub fn is_continued_by(&self, envelopes: &Vec<EventEnvelope>) -> (r: bool)
        ensures
            r == self@.continued_by(envelopes.deep_view()),
    {
        let ghost all = envelopes.deep_view();
        let mut last: u64 = self.last_sequence();
        let mut i: usize = 0;
        while i < envelopes.len()
            invariant
                i <= envelopes.len(),
                all == envelopes.deep_view(),
                last == if i == 0 {
                    self@.last_sequence
                } else {
                    all[i - 1].sequence
                },
                self@.last_sequence <= last,
                self@.continued_by(all.take(i as int)),
            decreases envelopes.len() - i,
        {
            assert(all[i as int].sequence == envelopes@[i as int].sequence);
            if envelopes[i].sequence <= last {
                proof {
                    if self@.continued_by(all) && i > 0 {
                        assert(all[i - 1].sequence < all[i as int].sequence);
                    }
                }
                return false;
            }
            proof {
                let head = all.take(i as int);
                let next = all.take(i + 1);
                assert forall|j: int| 0 <= j < next.len() implies self@.last_sequence < (
                #[trigger] next[j]).sequence by {
                    if j < i {
                        assert(next[j] == head[j]);
                    }
                }
                assert forall|j: int, k: int| 0 <= j < k < next.len() implies (
                #[trigger] next[j]).sequence < (#[trigger] next[k]).sequence by {
                    assert(next[j] == head[j]);
                    if k < i {
                        assert(next[k] == head[k]);
                    } else if j < i - 1 {
                        assert(head[j].sequence < head[i - 1].sequence);
                        assert(head[i - 1] == all[i - 1]);
                    } else {
                        assert(head[i - 1] == all[i - 1]);
                    }
                }
            }
            last = envelopes[i].sequence;
            i = i + 1;
        }
        assert(all.take(i as int) == all);
        true
    }

    /// Takes a run of events that continues the log into the state.
    pub fn replay(&mut self, envelopes: &Vec<EventEnvelope>)
        requires
            old(self)@.counted(),
            old(self)@.continued_by(envelopes.deep_view()),
        ensures
            final(self)@ == old(self)@.replayed(envelopes.deep_view()),
            final(self)@.counted(),
    {
        let ghost all = envelopes.deep_view();
        let ghost start = self@;
        let mut i: usize = 0;
        assert(all.take(0) == Seq::<EventEnvelopeView>::empty());
        while i < envelopes.len()
            invariant
                i <= envelopes.len(),
                all == envelopes.deep_view(),
                start.continued_by(all),
                self@ == start.replayed(all.take(i as int)),
                self@.counted(),
                self@.last_sequence == if i == 0 {
                    start.last_sequence
                } else {
                    all[i - 1].sequence
                },
            decreases envelopes.len() - i,
        {
            proof {
                assert(all.take(i + 1).drop_last() == all.take(i as int));
                assert(all.take(i + 1).last() == all[i as int]);
                if i > 0 {
                    assert(all[i - 1].sequence < all[i as int].sequence);
                }
                laws::replay::counters_have_room(self@, all[i as int]);
            }
            self.apply(&envelopes[i]);
            i = i + 1;
        }
        assert(all.take(i as int) == all);
    }
}

/// Whether envelopes make up a log from its start.
pub fn is_log(envelopes: &Vec<EventEnvelope>) -> (r: bool)
    ensures
        r == StateView::empty().continued_by(envelopes.deep_view()),
{
    CoordinationState::new().is_continued_by(envelopes)
}

/// The single writer of the log: it holds the state that the log has built up, decides on commands
/// and answers questions. The store keeps the log; what goes into it comes back in envelopes.
#[derive(Debug)]
pub struct Runtime {
    state: CoordinationState,
}

impl View for Runtime {
    type V = StateView;

    closed spec fn view(&self) -> StateView {
        self.state@
    }
}

impl Runtime {
    #[verifier::type_invariant]
    spec fn in_form(self) -> bool {
        self.state@.counted() && self.state@.well_formed()
    }

    /// A runtime on a log.
    pub fn open(log: &Vec<EventEnvelope>) -> (r: Self)
        requires
            StateView::empty().continued_by(log.deep_view()),
        ensures
            r@ == StateView::empty().replayed(log.deep_view()),
    {
        let mut state = CoordinationState::new();
        state.replay(log);
        proof {
            laws::replay::replay_keeps_form(StateView::empty(), log.deep_view());
        }
        Runtime { state }
    }

    /// The departures that are due at a time, where there are any. They go into the store before
    /// any command is decided and any question answered.
    pub fn due(&self, now: Timestamp) -> (r: Option<Vec<PendingEvent>>)
        ensures
            match r {
                Some(events) => events.deep_view() == self@.expired(now) && self@.expired(now).len()
                    > 0,
                None => self@.expired(now).len() == 0,
            },
    {
        let events = self.state.expire(now);
        if events.len() == 0 {
            None
        } else {
            Some(events)
        }
    }

    /// Whether envelopes continue the log.
    pub fn is_continued_by(&self, committed: &Vec<EventEnvelope>) -> (r: bool)
        ensures
            r == self@.continued_by(committed.deep_view()),
    {
        self.state.is_continued_by(committed)
    }

    /// Takes what the store has committed into the state. Once the departures that were due at a
    /// time are in, nothing more is due then.
    pub fn absorb(&mut self, committed: &Vec<EventEnvelope>)
        requires
            old(self)@.continued_by(committed.deep_view()),
        ensures
            final(self)@ == old(self)@.replayed(committed.deep_view()),
            forall|now: Timestamp|
                model::carries(committed.deep_view(), #[trigger] old(self)@.expired(now))
                    ==> final(self)@.expired(now).len() == 0,
    {
        proof {
            use_type_invariant(&*self);
            laws::replay::replay_keeps_form(self@, committed.deep_view());
            assert forall|now: Timestamp|
                model::carries(committed.deep_view(), #[trigger] self@.expired(now)) implies
                self@.replayed(committed.deep_view()).expired(now).len() == 0 by {
                laws::presence::expiry_takes_out_the_expired(self@, now, committed.deep_view());
            }
        }
        let mut state = CoordinationState::new();
        proof {
            laws::replay::events_keep_form(self@, arbitrary());
        }
        std::mem::swap(&mut state, &mut self.state);
        state.replay(committed);
        self.state = state;
    }

    /// Decides on a command, once nothing is due. What the decision asks of the store is done, then
    /// [`Runtime::commit`] answers.
    pub fn command(&self, command: Command, context: &DecisionContext) -> (r: Commit)
        requires
            self@.expired(context.now).len() == 0,
            model::lease_fits(command@, context.now),
        ensures
            match r {
                Commit::Append { events, answer } => {
                    &&& !(self@.decided(command@, *context) is Rejected)
                    &&& events.deep_view() == self@.decided(command@, *context).events()
                    &&& answer.owed_for(self@.decided(command@, *context))
                },
                Commit::Answer(result) => {
                    &&& self@.decided(command@, *context) is Rejected
                    &&& result@ == answer_to(self@.decided(command@, *context), Seq::empty())
                },
            },
    {
        prepare(self.state.decide(command, context))
    }

    /// Takes the events of a decision into the state and answers its command.
    pub fn commit(&mut self, pending: PendingAnswer, committed: &Vec<EventEnvelope>) -> (r:
        CommandResult)
        requires
            old(self)@.continued_by(committed.deep_view()),
        ensures
            final(self)@ == old(self)@.replayed(committed.deep_view()),
            r@ == pending.answered(sequences_of(committed.deep_view())),
    {
        self.absorb(committed);
        answer(pending, committed)
    }

    /// All that is known of a scope, once nothing is due.
    pub fn snapshot(&self, scope: &str, now: Timestamp) -> (r: ScopeSnapshot)
        requires
            self@.expired(now).len() == 0,
        ensures
            r@ == self@.snapshot(scope@),
    {
        self.state.snapshot(scope)
    }

    /// The workspaces, the one with the latest activity first, once nothing is due.
    pub fn workspaces(&self, now: Timestamp) -> (r: Vec<WorkspaceSummary>)
        requires
            self@.expired(now).len() == 0,
        ensures
            r.deep_view() == self@.workspace_summaries(),
    {
        self.state.workspaces()
    }

    /// The open requests of all scopes, the most pressing first, once nothing is due.
    pub fn attention(&self, now: Timestamp) -> (r: Vec<AttentionItem>)
        requires
            self@.expired(now).len() == 0,
        ensures
            r.deep_view() == self@.attention(),
    {
        self.state.attention()
    }

    /// The directions that a participant has received and not consumed, once nothing is due.
    pub fn directions(&self, participant_id: ParticipantId, now: Timestamp) -> (r: Vec<Direction>)
        requires
            self@.expired(now).len() == 0,
        ensures
            r.deep_view() == self@.directions_for(participant_id),
    {
        self.state.directions_for(participant_id)
    }
}

/// The answer to a published request names the request; the answer to any other command names none.
pub proof fn answers_name_their_request(
    state: StateView,
    command: CommandView,
    context: DecisionContext,
    envelopes: Seq<EventEnvelopeView>,
)
    requires
        state.decided(command, context) is Accepted,
        model::carries(envelopes, state.decided(command, context).events()),
    ensures
        answer_to(
            state.decided(command, context),
            sequences_of(envelopes),
        )->Accepted_request_id == (match command {
            CommandView::PublishSignal { signal, .. } => match signal.request_identity() {
                Some(identity) => Some(identity.request_id),
                None => None,
            },
            _ => None,
        }),
{
    let events = state.decided(command, context).events();
    laws::commands::commands_lead_to_their_events(state, command, context, envelopes);
    match command {
        CommandView::PublishSignal { .. } => {
            reveal_with_fuel(published_request, 3);
        },
        _ => {
            assert forall|i: int| 0 <= i < events.len() implies !((
            #[trigger] events[i]).event is SignalPublished) by {
                assert(envelopes[i].event == events[i].event);
            }
            lemma_no_request(events);
        },
    }
}

proof fn lemma_no_request(events: Seq<PendingEventView>)
    requires
        forall|i: int| 0 <= i < events.len() ==> !((#[trigger] events[i]).event is SignalPublished),
    ensures
        published_request(events) is None,
    decreases events.len(),
{
    if events.len() > 0 {
        let init = events.drop_last();
        assert forall|i: int| 0 <= i < init.len() implies !((
        #[trigger] init[i]).event is SignalPublished) by {
            assert(init[i] == events[i]);
        }
        lemma_no_request(init);
        assert(!(events[events.len() - 1].event is SignalPublished));
    }
}

/// A restart changes nothing: a runtime that is opened on the log with all that has been committed
/// since knows what the runtime that took it in as it came knows.
pub proof fn restarts_change_nothing(
    log: Seq<EventEnvelopeView>,
    committed: Seq<EventEnvelopeView>,
)
    requires
        StateView::empty().continued_by(log),
        StateView::empty().replayed(log).continued_by(committed),
    ensures
        StateView::empty().continued_by(log + committed),
        StateView::empty().replayed(log + committed) == StateView::empty().replayed(log).replayed(
            committed,
        ),
{
    let all = log + committed;
    let n = log.len() as int;
    laws::replay::replay_in_parts(StateView::empty(), log, committed);
    laws::soundness::lemma_stays_within_log(StateView::empty(), log);
    assert forall|i: int| 0 <= i < log.len() implies (#[trigger] log[i]).sequence
        <= StateView::empty().replayed(log).last_sequence by {
        if i < n - 1 {
            assert(log[i].sequence < log[n - 1].sequence);
        }
    }
    assert forall|i: int| 0 <= i < all.len() implies 0 < (#[trigger] all[i]).sequence by {
        if i < n {
            assert(all[i] == log[i]);
        } else {
            assert(all[i] == committed[i - n]);
        }
    }
    assert forall|i: int, j: int| 0 <= i < j < all.len() implies (#[trigger] all[i]).sequence < (
    #[trigger] all[j]).sequence by {
        if j < n {
            assert(all[i] == log[i] && all[j] == log[j]);
        } else if i < n {
            assert(all[i] == log[i] && all[j] == committed[j - n]);
        } else {
            assert(all[i] == committed[i - n] && all[j] == committed[j - n]);
        }
    }
}

/// Once nothing is due, every participant that is known holds a lease.
pub proof fn nobody_outstays_the_lease(state: StateView, now: Timestamp, id: ParticipantId)
    requires
        state.well_formed(),
        state.expired(now).len() == 0,
        state.participants.contains_key(id),
    ensures
        state.live(id, now) == Some(state.participants[id]),
{
    laws::presence::lemma_expiry_is_empty(state, now, id);
}

} // verus!
