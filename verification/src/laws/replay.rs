//! Replaying the log.
use vstd::prelude::*;

use crate::coordination::DecisionContext;
use crate::model;
use crate::model::StateView;
use crate::protocol::{CommandView, EventEnvelopeView};

verus! {

/// Replaying a log in two parts leads where replaying it at once does.
pub proof fn replay_in_parts(
    state: StateView,
    first: Seq<EventEnvelopeView>,
    second: Seq<EventEnvelopeView>,
)
    ensures
        state.replayed(first + second) == state.replayed(first).replayed(second),
    decreases second.len(),
{
    if second.len() == 0 {
        assert(first + second == first);
    } else {
        assert((first + second).drop_last() == first + second.drop_last());
        replay_in_parts(state, first, second.drop_last());
    }
}

/// Replaying one event applies it.
pub proof fn replay_of_one(state: StateView, envelopes: Seq<EventEnvelopeView>)
    requires
        envelopes.len() == 1,
    ensures
        state.replayed(envelopes) == state.applied(envelopes[0]),
{
    assert(envelopes.drop_last() == Seq::<EventEnvelopeView>::empty());
    assert(state.replayed(envelopes.drop_last()) == state);
}

/// The empty state is well-formed, and every event keeps a state so.
pub proof fn events_keep_form(state: StateView, envelope: EventEnvelopeView)
    ensures
        StateView::empty().well_formed(),
        state.well_formed() ==> state.applied(envelope).well_formed(),
{
}

/// A log replayed from a well-formed state leads to one.
pub proof fn replay_keeps_form(state: StateView, envelopes: Seq<EventEnvelopeView>)
    requires
        state.well_formed(),
    ensures
        state.replayed(envelopes).well_formed(),
    decreases envelopes.len(),
{
    if envelopes.len() > 0 {
        replay_keeps_form(state, envelopes.drop_last());
        events_keep_form(state.replayed(envelopes.drop_last()), envelopes.last());
    }
}

/// The last sequence never falls, and no event is ahead of it.
pub proof fn sequences_never_fall(state: StateView, envelope: EventEnvelopeView)
    ensures
        state.last_sequence <= state.applied(envelope).last_sequence,
        envelope.sequence <= state.applied(envelope).last_sequence,
        state.applied(envelope).scope_sequences[envelope.scope] == envelope.sequence,
{
}

/// A rejected command changes nothing.
pub proof fn rejection_changes_nothing(
    state: StateView,
    command: CommandView,
    context: DecisionContext,
    envelopes: Seq<EventEnvelopeView>,
)
    requires
        state.decided(command, context) is Rejected,
        model::carries(envelopes, state.decided(command, context).events()),
    ensures
        state.replayed(envelopes) == state,
{
}

/// The counters never run out: an event that continues the log has room, and keeps the counters
/// within the sequences.
pub proof fn counters_have_room(state: StateView, envelope: EventEnvelopeView)
    requires
        state.counted(),
        state.last_sequence < envelope.sequence,
    ensures
        state.has_room(envelope),
        state.applied(envelope).counted(),
        state.applied(envelope).last_sequence == envelope.sequence,
{
    let before = state.metrics_of(envelope.scope);
    let after = state.applied(envelope);
    assert forall|scope: Seq<char>| #[trigger]
        after.metrics.contains_key(scope) implies after.metrics[scope].prevented_overlaps
        <= after.last_sequence && after.metrics[scope].human_interventions <= after.last_sequence by {
        if state.metrics.contains_key(scope) {
            assert(state.metrics[scope].prevented_overlaps <= state.last_sequence);
        }
    }
}

} // verus!
