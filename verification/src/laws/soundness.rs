//! What holds in every state: it holds at the start, and no decision and no expiry breaks it.
use vstd::prelude::*;

use crate::coordination::DecisionContext;
use crate::laws::{attention, claims, directions, presence, replay, scopes};
use crate::model;
use crate::model::StateView;
use crate::protocol::{CommandView, EventEnvelopeView};
use crate::time::Timestamp;

verus! {

/// What holds in every state that decisions and expiries build up.
pub open spec fn sound(state: StateView) -> bool {
    &&& state.well_formed()
    &&& state.counted()
    &&& state.exclusive()
    &&& state.owned()
    &&& attention::within_log(state)
    &&& attention::signals_ascend(state)
    &&& attention::requests_are_distinct(state)
    &&& attention::refers_to_known(state)
    &&& directions::all_delivered_once(state)
    &&& scopes::scopes_are_known(state)
}

/// The empty state is sound.
pub proof fn the_start_is_sound()
    ensures
        sound(StateView::empty()),
{
}

/// A run of events that continues the log keeps the counters and the signals within it, and the
/// signals in its order.
pub proof fn lemma_stays_within_log(state: StateView, envelopes: Seq<EventEnvelopeView>)
    requires
        state.counted(),
        attention::within_log(state),
        attention::signals_ascend(state),
        state.continued_by(envelopes),
    ensures
        state.replayed(envelopes).counted(),
        attention::within_log(state.replayed(envelopes)),
        attention::signals_ascend(state.replayed(envelopes)),
        state.replayed(envelopes).last_sequence == if envelopes.len() == 0 {
            state.last_sequence
        } else {
            envelopes.last().sequence
        },
    decreases envelopes.len(),
{
    if envelopes.len() > 0 {
        let init = envelopes.drop_last();
        assert forall|i: int| 0 <= i < init.len() implies #[trigger] init[i] == envelopes[i] by {}
        assert(state.continued_by(init));
        lemma_stays_within_log(state, init);
        let before = state.replayed(init);
        let last = envelopes[envelopes.len() - 1];
        assert(before.last_sequence < last.sequence) by {
            if init.len() > 0 {
                assert(envelopes[init.len() - 1].sequence < last.sequence);
            }
        }
        replay::counters_have_room(before, last);
        let after = before.applied(last);
        assert forall|i: int| 0 <= i < after.signals.len() implies (
        #[trigger] after.signals[i]).sequence <= after.last_sequence by {
            if i < before.signals.len() {
                assert(after.signals[i] == before.signals[i]);
            }
        }
        assert forall|i: int, j: int| 0 <= i < j < after.signals.len() implies (
        #[trigger] after.signals[i]).sequence < (#[trigger] after.signals[j]).sequence by {
            assert(after.signals[i] == before.signals[i]);
            if j < before.signals.len() {
                assert(after.signals[j] == before.signals[j]);
            } else {
                assert(before.signals[i].sequence <= before.last_sequence);
            }
        }
    }
}

/// Every decision keeps a state sound, once its events are in the log. A newcomer's identity is
/// new.
pub proof fn decisions_keep_state_sound(
    state: StateView,
    command: CommandView,
    context: DecisionContext,
    envelopes: Seq<EventEnvelopeView>,
)
    requires
        sound(state),
        command is Join ==> !state.participants.contains_key(context.participant_id),
        model::carries(envelopes, state.decided(command, context).events()),
        state.continued_by(envelopes),
    ensures
        sound(state.replayed(envelopes)),
{
    lemma_stays_within_log(state, envelopes);
    replay::replay_keeps_form(state, envelopes);
    claims::decisions_keep_claims_exclusive(state, command, context, envelopes);
    claims::decisions_keep_work_owned(state, command, context, envelopes);
    attention::decisions_keep_requests_distinct(state, command, context, envelopes);
    attention::decisions_refer_to_known_requests(state, command, context, envelopes);
    directions::decisions_deliver_once(state, command, context, envelopes);
    scopes::decisions_keep_scopes_known(state, command, context, envelopes);
}

/// Every expiry keeps a state sound, once its events are in the log.
pub proof fn expiry_keeps_state_sound(
    state: StateView,
    now: Timestamp,
    envelopes: Seq<EventEnvelopeView>,
)
    requires
        sound(state),
        model::carries(envelopes, state.expired(now)),
        state.continued_by(envelopes),
    ensures
        sound(state.replayed(envelopes)),
{
    lemma_stays_within_log(state, envelopes);
    replay::replay_keeps_form(state, envelopes);
    presence::expiry_keeps_claims(state, now, envelopes);
    presence::expiry_takes_out_the_expired(state, now, envelopes);
    scopes::expiry_keeps_scopes_known(state, now, envelopes);
    let after = state.replayed(envelopes);
    assert forall|id| #[trigger] state.knows_request(id) implies after.knows_request(id) by {}
    assert(attention::refers_to_known(after));
}

} // verus!
