//! Attention: each open request is shown, until exactly it is closed.
use vstd::prelude::*;

use crate::coordination::{DecisionContext, DecisionView};
use crate::laws::commands;
use crate::laws::replay;
use crate::laws::soundness;
use crate::model;
use crate::model::{StateView, StoredSignalView};
use crate::ordered;
use crate::protocol::{
    ArtifactRefView, AttentionItem, AttentionItemView, CommandView, DirectionId, DirectionTarget,
    DirectionView, EventEnvelopeView, EventKindView, ParticipantId, RequestId, SignalView, WorkId,
};
use crate::sequences;
use crate::text;

verus! {

/// A filter-map whose function drops some of what another keeps is the other's result, filtered.
proof fn lemma_narrower<A, B>(
    s: Seq<A>,
    f: spec_fn(A) -> Option<B>,
    g: spec_fn(A) -> Option<B>,
    p: spec_fn(B) -> bool,
)
    requires
        forall|i: int|
            0 <= i < s.len() ==> g(#[trigger] s[i]) == (match f(s[i]) {
                Some(b) => if p(b) {
                    Some(b)
                } else {
                    None
                },
                None => None,
            }),
    ensures
        s.filter_map(g) == s.filter_map(f).filter(p),
    decreases s.len(),
{
    reveal(Seq::filter);
    if s.len() > 0 {
        let init = s.drop_last();
        let n = s.len() - 1;
        assert forall|i: int| 0 <= i < init.len() implies g(#[trigger] init[i]) == (match f(
            init[i],
        ) {
            Some(b) => if p(b) {
                Some(b)
            } else {
                None
            },
            None => None,
        }) by {
            assert(init[i] == s[i]);
        }
        lemma_narrower(init, f, g, p);
        assert(s.last() == s[n]);
        match f(s[n]) {
            Some(b) => {
                let kept = init.filter_map(f) + seq![b];
                assert(s.filter_map(f) == kept);
                assert(kept.drop_last() == init.filter_map(f));
                assert(kept.last() == b);
                assert(kept.filter(p) == if p(b) {
                    init.filter_map(f).filter(p).push(b)
                } else {
                    init.filter_map(f).filter(p)
                });
            },
            None => {},
        }
    }
}

proof fn lemma_filter_map_same<A, B>(
    s: Seq<A>,
    f: spec_fn(A) -> Option<B>,
    g: spec_fn(A) -> Option<B>,
)
    requires
        forall|i: int| 0 <= i < s.len() ==> g(#[trigger] s[i]) == f(s[i]),
    ensures
        s.filter_map(g) == s.filter_map(f),
    decreases s.len(),
{
    if s.len() > 0 {
        let init = s.drop_last();
        assert forall|i: int| 0 <= i < init.len() implies g(#[trigger] init[i]) == f(init[i]) by {
            assert(init[i] == s[i]);
        }
        lemma_filter_map_same(init, f, g);
        assert(s.last() == s[s.len() - 1]);
    }
}

/// Attention holds the open requests of all known scopes and nothing else, none behind one that
/// it ranks ahead of.
pub proof fn attention_is_complete_and_ranked(state: StateView, item: AttentionItemView)
    requires
        state.well_formed(),
    ensures
        sequences::in_rank_order::<AttentionItem>(state.attention()),
        state.attention().contains(item) <==> exists|scope: Seq<char>|
            state.scopes.contains(scope) && #[trigger] state.attention_for_scope(scope).contains(
                item,
            ),
{
    let scopes = ordered::listing::<String>(state.scopes);
    let f = state.items_by_scope();
    let all = scopes.flat_map(f);
    ordered::lemma_listing_of_finite::<String>(state.scopes);
    sequences::ranking_arranges::<AttentionItem>(all, item);
    vstd::seq_lib::to_multiset_contains(all, item);
    vstd::seq_lib::to_multiset_contains(state.attention(), item);
    sequences::lemma_flat_map_contains(scopes, f, item);
    if all.contains(item) {
        let i = choose|i: int| 0 <= i < scopes.len() && f(#[trigger] scopes[i]).contains(item);
        assert(scopes.to_set().contains(scopes[i]));
        assert(state.attention_for_scope(scopes[i]).contains(item));
    }
    if exists|scope: Seq<char>|
        state.scopes.contains(scope) && #[trigger] state.attention_for_scope(scope).contains(
            item,
        ) {
        let scope = choose|scope: Seq<char>|
            state.scopes.contains(scope) && #[trigger] state.attention_for_scope(scope).contains(
                item,
            );
        assert(scopes.to_set().contains(scope));
        let i = scopes.index_of(scope);
        assert(f(scopes[i]).contains(item));
    }
}

/// Every item is an open request of its scope that a fit signal made and nothing has settled, and
/// every such request is an item.
pub proof fn items_are_open_requests(state: StateView, scope: Seq<char>, item: AttentionItemView)
    ensures
        state.attention_for_scope(scope).contains(item) <==> exists|i: int|
            0 <= i < state.signals.len() && state.attention_item(scope, #[trigger] state.signals[i])
                == Some(item),
        state.attention_for_scope(scope).contains(item) ==> {
            &&& item.source_scope == scope
            &&& item.lifecycle is Open
            &&& exists|i: int|
                0 <= i < state.signals.len() && (#[trigger] state.signals[i]).makes(item.request_id)
                    && state.signals[i].published.signal.fault() is None && !state.settled(
                    state.signals[i],
                )
        },
{
    let f = state.item_in(scope);
    if state.attention_for_scope(scope).contains(item) {
        state.signals.lemma_filter_map_contains(f, item);
        let s = choose|s: StoredSignalView| #[trigger]
            state.signals.contains(s) && f(s) == Some(item);
        let i = state.signals.index_of(s);
        assert(state.attention_item(scope, state.signals[i]) == Some(item));
        assert(state.signals[i].makes(item.request_id));
    }
    if exists|i: int|
        0 <= i < state.signals.len() && state.attention_item(scope, #[trigger] state.signals[i])
            == Some(item) {
        let i = choose|i: int|
            0 <= i < state.signals.len() && state.attention_item(
                scope,
                #[trigger] state.signals[i],
            ) == Some(item);
        sequences::lemma_filter_map_has(state.signals, f, i);
    }
}

/// Whether an event can open or close requests.
pub open spec fn touches_requests(event: EventKindView) -> bool {
    event is SignalPublished || event is AttentionResolved || event is DirectionIssued
}

/// Nothing but a signal, a resolution or a direction opens or closes a request: attention outlasts
/// departures, releases, renewals, deliveries and all other events.
pub proof fn other_events_keep_attention(
    state: StateView,
    envelope: EventEnvelopeView,
    scope: Seq<char>,
)
    requires
        !touches_requests(envelope.event),
    ensures
        state.applied(envelope).attention_for_scope(scope) == state.attention_for_scope(scope),
{
    let after = state.applied(envelope);
    assert forall|i: int| 0 <= i < state.signals.len() implies after.item_in(scope)(
        #[trigger] state.signals[i],
    ) == state.item_in(scope)(state.signals[i]) by {
        let source = state.signals[i];
        lemma_targets_kept(state, envelope, source);
        assert(after.superseded(source) == state.superseded(source));
    }
    lemma_filter_map_same(state.signals, state.item_in(scope), after.item_in(scope));
}

proof fn lemma_targets_kept(
    state: StateView,
    envelope: EventEnvelopeView,
    source: StoredSignalView,
)
    requires
        !(envelope.event is DirectionIssued),
    ensures
        state.applied(envelope).answered(source) == state.answered(source),
{
    let after = state.applied(envelope);
    assert forall|id: DirectionId| #[trigger]
        after.directions.contains_key(id) <==> state.directions.contains_key(id) by {}
    assert forall|id: DirectionId|
        state.directions.contains_key(id) implies (#[trigger] after.directions[id]).target
        == state.directions[id].target by {}
    if state.answered(source) {
        let id = choose|id: DirectionId|
            state.directions.contains_key(id) && source.answered_by(
                (#[trigger] state.directions[id]).target,
            );
        assert(after.directions.contains_key(id));
        assert(source.answered_by(after.directions[id].target));
    }
    if after.answered(source) {
        let id = choose|id: DirectionId|
            after.directions.contains_key(id) && source.answered_by(
                (#[trigger] after.directions[id]).target,
            );
        assert(source.answered_by(state.directions[id].target));
    }
}

/// The items other than those of one request.
pub open spec fn other_than(request_id: RequestId) -> spec_fn(AttentionItemView) -> bool {
    |item: AttentionItemView| item.request_id != request_id
}

/// A resolution closes the request that it names and no other.
pub proof fn resolution_closes_one_request(
    state: StateView,
    envelope: EventEnvelopeView,
    scope: Seq<char>,
)
    requires
        envelope.event is AttentionResolved,
    ensures
        state.applied(envelope).attention_for_scope(scope) == state.attention_for_scope(
            scope,
        ).filter(other_than(envelope.event->AttentionResolved_request_id)),
{
    let after = state.applied(envelope);
    let request_id = envelope.event->AttentionResolved_request_id;
    let p = other_than(request_id);
    let f = state.item_in(scope);
    let g = after.item_in(scope);
    assert forall|i: int| 0 <= i < state.signals.len() implies g(#[trigger] state.signals[i]) == (
    match f(state.signals[i]) {
        Some(item) => if p(item) {
            Some(item)
        } else {
            None
        },
        None => None,
    }) by {
        let source = state.signals[i];
        lemma_targets_kept(state, envelope, source);
        assert(after.superseded(source) == state.superseded(source));
    }
    lemma_narrower(state.signals, f, g, p);
}

/// Whether a direction with this target answers the request of an item.
pub open spec fn answers(target: Option<DirectionTarget>, item: AttentionItemView) -> bool {
    match target {
        None => false,
        Some(t) => match t.request_id {
            Some(request_id) => item.request_id == request_id,
            None => {
                &&& t.source_event_id == item.source_event_id
                &&& t.participant_id == item.participant_id
                &&& t.work_id == item.work_id
            },
        },
    }
}

/// The items that a direction with this target does not answer.
pub open spec fn unanswered_by(target: Option<DirectionTarget>) -> spec_fn(
    AttentionItemView,
) -> bool {
    |item: AttentionItemView| !answers(target, item)
}

/// A new direction closes the request that its target names and no other; a broadcast closes none.
pub proof fn direction_closes_what_it_answers(
    state: StateView,
    envelope: EventEnvelopeView,
    scope: Seq<char>,
)
    requires
        envelope.event is DirectionIssued,
        !state.directions.contains_key(envelope.event->DirectionIssued_direction.id),
    ensures
        state.applied(envelope).attention_for_scope(scope) == state.attention_for_scope(
            scope,
        ).filter(unanswered_by(envelope.event->DirectionIssued_direction.target)),
        envelope.event->DirectionIssued_direction.target is None ==> state.applied(
            envelope,
        ).attention_for_scope(scope) == state.attention_for_scope(scope),
{
    let after = state.applied(envelope);
    let direction = envelope.event->DirectionIssued_direction;
    let p = unanswered_by(direction.target);
    let f = state.item_in(scope);
    let g = after.item_in(scope);
    assert forall|i: int| 0 <= i < state.signals.len() implies g(#[trigger] state.signals[i]) == (
    match f(state.signals[i]) {
        Some(item) => if p(item) {
            Some(item)
        } else {
            None
        },
        None => None,
    }) by {
        let source = state.signals[i];
        assert(after.superseded(source) == state.superseded(source));
        assert(after.answered(source) == (state.answered(source) || source.answered_by(
            direction.target,
        ))) by {
            if source.answered_by(direction.target) {
                assert(after.directions.contains_key(direction.id));
                assert(source.answered_by(after.directions[direction.id].target));
            }
            if state.answered(source) {
                let id = choose|id: DirectionId|
                    state.directions.contains_key(id) && source.answered_by(
                        (#[trigger] state.directions[id]).target,
                    );
                assert(after.directions.contains_key(id));
                assert(source.answered_by(after.directions[id].target));
            }
            if after.answered(source) {
                let id = choose|id: DirectionId|
                    after.directions.contains_key(id) && source.answered_by(
                        (#[trigger] after.directions[id]).target,
                    );
                if id != direction.id {
                    assert(source.answered_by(state.directions[id].target));
                }
            }
        }
    }
    lemma_narrower(state.signals, f, g, p);
    if direction.target is None {
        sequences::lemma_filter_all(state.attention_for_scope(scope), p);
    }
}

/// The signal that an event puts into the log.
pub open spec fn stored(envelope: EventEnvelopeView) -> StoredSignalView {
    StoredSignalView {
        scope: envelope.scope,
        event_id: envelope.event_id,
        sequence: envelope.sequence,
        published: envelope.event->SignalPublished_published,
    }
}

/// The items of a scope that a signal does not supersede: it is from another scope, sender or
/// work, or bears another key and names another request.
pub open spec fn kept_by(signal: StoredSignalView, scope: Seq<char>) -> spec_fn(
    AttentionItemView,
) -> bool {
    |item: AttentionItemView|
        !(signal.identity() is Some && signal.scope == scope && signal.published.participant_id
            == item.participant_id && signal.published.work_id == item.work_id && (
        signal.identity()->0.request_key == item.request_key
            || signal.identity()->0.supersedes_request_id == Some(item.request_id)))
}

/// A signal later than all before it supersedes earlier requests with its key, or the one that it
/// names, from the same sender on the same work in the same scope, and no others; its own request
/// comes last.
pub proof fn signal_supersedes_its_own_only(
    state: StateView,
    envelope: EventEnvelopeView,
    scope: Seq<char>,
)
    requires
        envelope.event is SignalPublished,
        forall|i: int|
            0 <= i < state.signals.len() ==> (#[trigger] state.signals[i]).sequence
                < envelope.sequence,
    ensures
        state.applied(envelope).attention_for_scope(scope) == state.attention_for_scope(
            scope,
        ).filter(kept_by(stored(envelope), scope)) + (match state.applied(envelope).attention_item(
            scope,
            stored(envelope),
        ) {
            Some(item) => seq![item],
            None => Seq::empty(),
        }),
{
    let after = state.applied(envelope);
    let new = stored(envelope);
    let p = kept_by(new, scope);
    let f = state.item_in(scope);
    let g = after.item_in(scope);
    assert(after.signals == state.signals.push(new));
    assert forall|i: int| 0 <= i < state.signals.len() implies g(#[trigger] state.signals[i]) == (
    match f(state.signals[i]) {
        Some(item) => if p(item) {
            Some(item)
        } else {
            None
        },
        None => None,
    }) by {
        let source = state.signals[i];
        lemma_targets_kept(state, envelope, source);
        assert(after.superseded(source) == (state.superseded(source) || new.supersedes(source)))
            by {
            assert(after.signals[state.signals.len() as int] == new);
            if state.superseded(source) {
                let j = choose|j: int|
                    0 <= j < state.signals.len() && (#[trigger] state.signals[j]).supersedes(
                        source,
                    );
                assert(after.signals[j] == state.signals[j]);
            }
            if after.superseded(source) {
                let j = choose|j: int|
                    0 <= j < after.signals.len() && (#[trigger] after.signals[j]).supersedes(
                        source,
                    );
                if j < state.signals.len() {
                    assert(after.signals[j] == state.signals[j]);
                }
            }
        }
        match source.published.signal.attention() {
            Some((category, request, own)) => {
                lemma_evidence_kept(state, envelope, scope, source, own);
            },
            None => {},
        }
    }
    lemma_narrower(state.signals, f, g, p);
    assert(after.signals.drop_last() == state.signals);
    assert(after.signals.last() == new);
}

proof fn lemma_evidence_kept(
    state: StateView,
    envelope: EventEnvelopeView,
    scope: Seq<char>,
    source: StoredSignalView,
    own: Seq<ArtifactRefView>,
)
    requires
        envelope.event is SignalPublished,
        source.sequence < envelope.sequence,
    ensures
        state.applied(envelope).evidence(scope, source, own) == state.evidence(scope, source, own),
{
    let f = StateView::background(scope, source);
    state.signals.lemma_flat_map_push(f, stored(envelope));
    assert(f(stored(envelope)) == Seq::<ArtifactRefView>::empty());
    assert(state.signals.flat_map(f) + Seq::<ArtifactRefView>::empty() == state.signals.flat_map(
        f,
    ));
}

/// An event of another scope leaves what is shown of a scope as it is, where it resolves or answers
/// no request of that scope.
pub proof fn lemma_attention_elsewhere(
    state: StateView,
    envelope: EventEnvelopeView,
    scope: Seq<char>,
)
    requires
        scope != envelope.scope,
        envelope.event is AttentionResolved ==> forall|i: int|
            0 <= i < state.signals.len() && (#[trigger] state.signals[i]).makes(
                envelope.event->AttentionResolved_request_id,
            ) ==> state.signals[i].scope == envelope.scope,
        envelope.event is DirectionIssued ==> !state.directions.contains_key(
            envelope.event->DirectionIssued_direction.id,
        ) && forall|i: int|
            0 <= i < state.signals.len() && (#[trigger] state.signals[i]).answered_by(
                envelope.event->DirectionIssued_direction.target,
            ) ==> state.signals[i].scope == envelope.scope,
    ensures
        state.applied(envelope).attention_for_scope(scope) == state.attention_for_scope(scope),
{
    let shown = state.attention_for_scope(scope);
    if !touches_requests(envelope.event) {
        other_events_keep_attention(state, envelope, scope);
    } else if envelope.event is SignalPublished {
        lemma_signal_elsewhere(state, envelope, scope);
    } else {
        let p = if envelope.event is AttentionResolved {
            resolution_closes_one_request(state, envelope, scope);
            other_than(envelope.event->AttentionResolved_request_id)
        } else {
            direction_closes_what_it_answers(state, envelope, scope);
            unanswered_by(envelope.event->DirectionIssued_direction.target)
        };
        assert forall|k: int| 0 <= k < shown.len() implies p(#[trigger] shown[k]) by {
            let item = shown[k];
            assert(shown.contains(item));
            items_are_open_requests(state, scope, item);
            let i = choose|i: int|
                0 <= i < state.signals.len() && state.attention_item(
                    scope,
                    #[trigger] state.signals[i],
                ) == Some(item);
            assert(state.signals[i].makes(item.request_id));
            assert(state.signals[i].scope == scope);
        }
        sequences::lemma_filter_all(shown, p);
    }
}

proof fn lemma_signal_elsewhere(state: StateView, envelope: EventEnvelopeView, scope: Seq<char>)
    requires
        scope != envelope.scope,
        envelope.event is SignalPublished,
    ensures
        state.applied(envelope).attention_for_scope(scope) == state.attention_for_scope(scope),
{
    let after = state.applied(envelope);
    let new = stored(envelope);
    let f = state.item_in(scope);
    let g = after.item_in(scope);
    assert(after.signals == state.signals.push(new));
    assert forall|i: int| 0 <= i < state.signals.len() implies g(#[trigger] state.signals[i]) == f(
        state.signals[i],
    ) by {
        let source = state.signals[i];
        lemma_targets_kept(state, envelope, source);
        if source.scope == scope {
            assert(after.superseded(source) == state.superseded(source)) by {
                if state.superseded(source) {
                    let j = choose|j: int|
                        0 <= j < state.signals.len() && (#[trigger] state.signals[j]).supersedes(
                            source,
                        );
                    assert(after.signals[j] == state.signals[j]);
                }
                if after.superseded(source) {
                    let j = choose|j: int|
                        0 <= j < after.signals.len() && (#[trigger] after.signals[j]).supersedes(
                            source,
                        );
                    assert(after.signals[j] == state.signals[j]);
                }
            }
            let b = StateView::background(scope, source);
            state.signals.lemma_flat_map_push(b, new);
            assert(b(new) == Seq::<ArtifactRefView>::empty());
            assert(state.signals.flat_map(b) + Seq::<ArtifactRefView>::empty()
                == state.signals.flat_map(b));
        }
    }
    lemma_filter_map_same(state.signals, f, g);
    assert(after.signals.drop_last() == state.signals);
    assert(after.signals.last() == new);
}

/// A quiet signal (progress, a finding, an offering, a checkpoint or the end of work) neither opens
/// nor closes a request, nor changes what is shown of one.
pub proof fn quiet_signals_keep_attention(
    state: StateView,
    envelope: EventEnvelopeView,
    scope: Seq<char>,
)
    requires
        envelope.event is SignalPublished,
        !envelope.event->SignalPublished_published.signal.asks_attention(),
        forall|i: int|
            0 <= i < state.signals.len() ==> (#[trigger] state.signals[i]).sequence
                < envelope.sequence,
    ensures
        state.applied(envelope).attention_for_scope(scope) == state.attention_for_scope(scope),
{
    signal_supersedes_its_own_only(state, envelope, scope);
    sequences::lemma_filter_all(state.attention_for_scope(scope), kept_by(stored(envelope), scope));
    assert(state.attention_for_scope(scope) + Seq::<AttentionItemView>::empty()
        == state.attention_for_scope(scope));
}

/// A fit request that nothing has settled yet is shown as soon as it is in the log.
pub proof fn new_requests_are_shown(state: StateView, envelope: EventEnvelopeView)
    requires
        envelope.event is SignalPublished,
        stored(envelope).identity() is Some,
        stored(envelope).published.signal.fault() is None,
        forall|i: int|
            0 <= i < state.signals.len() ==> (#[trigger] state.signals[i]).sequence
                < envelope.sequence,
        !state.resolved_requests.contains(stored(envelope).identity()->0.request_id),
        !state.answered(stored(envelope)),
    ensures
        state.applied(envelope).attention_item(envelope.scope, stored(envelope)) is Some,
        state.applied(envelope).attention_for_scope(envelope.scope).len() > 0,
        state.applied(envelope).attention_for_scope(envelope.scope).last().request_id == stored(
            envelope,
        ).identity()->0.request_id,
        state.applied(envelope).scopes.contains(envelope.scope),
{
    let after = state.applied(envelope);
    let new = stored(envelope);
    lemma_targets_kept(state, envelope, new);
    assert(!after.superseded(new)) by {
        assert forall|j: int| 0 <= j < after.signals.len() implies !(
        #[trigger] after.signals[j]).supersedes(new) by {
            if j < state.signals.len() {
                assert(after.signals[j] == state.signals[j]);
            }
        }
    }
    signal_supersedes_its_own_only(state, envelope, envelope.scope);
}

/// Whether no two signals make requests of one identity.
pub open spec fn requests_are_distinct(state: StateView) -> bool {
    forall|i: int, j: int|
        0 <= i < j < state.signals.len() && (#[trigger] state.signals[i]).identity() is Some
            ==> !(#[trigger] state.signals[j]).makes(state.signals[i].identity()->0.request_id)
}

/// No decision lets two signals make requests of one identity.
pub proof fn decisions_keep_requests_distinct(
    state: StateView,
    command: CommandView,
    context: DecisionContext,
    envelopes: Seq<EventEnvelopeView>,
)
    requires
        requests_are_distinct(state),
        model::carries(envelopes, state.decided(command, context).events()),
    ensures
        requests_are_distinct(state.replayed(envelopes)),
{
    match command {
        CommandView::PublishSignal { participant_id, work_id, signal } => {
            if envelopes.len() > 0 {
                let first = state.applied(envelopes[0]);
                assert(first.signals == state.signals.push(stored(envelopes[0])));
                assert(requests_are_distinct(first));
                if envelopes.len() == 2 {
                    let init = envelopes.drop_last();
                    assert(init[0] == envelopes[0]);
                    replay::replay_of_one(state, init);
                    assert(envelopes[1].event is WorkReleased);
                } else {
                    replay::replay_of_one(state, envelopes);
                }
            }
        },
        CommandView::Leave { participant_id } => {
            lemma_no_signals(state, command, context, envelopes);
        },
        CommandView::DeliverDirections { participant_id } => {
            lemma_no_signals(state, command, context, envelopes);
        },
        _ => {
            if envelopes.len() == 1 {
                replay::replay_of_one(state, envelopes);
            }
        },
    }
}

proof fn lemma_no_signals(
    state: StateView,
    command: CommandView,
    context: DecisionContext,
    envelopes: Seq<EventEnvelopeView>,
)
    requires
        command is Leave || command is DeliverDirections,
        model::carries(envelopes, state.decided(command, context).events()),
    ensures
        state.replayed(envelopes).signals == state.signals,
{
    commands::commands_lead_to_their_events(state, command, context, envelopes);
    lemma_signals_kept(state, envelopes);
}

proof fn lemma_signals_kept(state: StateView, envelopes: Seq<EventEnvelopeView>)
    requires
        forall|i: int|
            0 <= i < envelopes.len() ==> !((#[trigger] envelopes[i]).event is SignalPublished),
    ensures
        state.replayed(envelopes).signals == state.signals,
    decreases envelopes.len(),
{
    if envelopes.len() > 0 {
        let init = envelopes.drop_last();
        assert forall|i: int| 0 <= i < init.len() implies !((
        #[trigger] init[i]).event is SignalPublished) by {
            assert(init[i] == envelopes[i]);
        }
        lemma_signals_kept(state, init);
        assert(!(envelopes[envelopes.len() - 1].event is SignalPublished));
    }
}

/// A direction that was accepted keeps its target as it was given, and names an open request.
pub proof fn accepted_directions_keep_their_target(
    state: StateView,
    scope: Seq<char>,
    message: Seq<char>,
    author: Seq<char>,
    target: Option<DirectionTarget>,
    context: DecisionContext,
)
    requires
        state.decided(
            CommandView::Intervene { scope, message, author, target },
            context,
        ) is Accepted,
    ensures
        state.decided(
            CommandView::Intervene { scope, message, author, target },
            context,
        ).events().len() == 1,
        state.decided(
            CommandView::Intervene { scope, message, author, target },
            context,
        ).events()[0].event->DirectionIssued_direction.target == target,
        target is Some ==> target->0.request_id is Some && state.names_open_request(
            scope,
            target->0,
        ),
{
    if target is Some {
        let t = target->0;
        let i = choose|i: int|
            0 <= i < state.signals.len() && model::names(scope, t, #[trigger] state.signals[i])
                && !state.settled(state.signals[i]);
        assert(t.request_id is Some);
    }
}

/// Whether every request that has been resolved or answered is one that a signal made.
pub open spec fn refers_to_known(state: StateView) -> bool {
    &&& forall|id: RequestId| #[trigger]
        state.resolved_requests.contains(id) ==> state.knows_request(id)
    &&& forall|id: DirectionId| #[trigger]
        state.directions.contains_key(id) ==> (state.directions[id].target matches Some(target)
            ==> target.request_id is Some && state.knows_request(target.request_id->0))
}

/// Whether no signal is ahead of the log.
pub open spec fn within_log(state: StateView) -> bool {
    forall|i: int|
        0 <= i < state.signals.len() ==> (#[trigger] state.signals[i]).sequence
            <= state.last_sequence
}

/// Whether the signals stand in the order of the log.
pub open spec fn signals_ascend(state: StateView) -> bool {
    forall|i: int, j: int|
        0 <= i < j < state.signals.len() ==> (#[trigger] state.signals[i]).sequence < (
        #[trigger] state.signals[j]).sequence
}

/// No two open requests of a scope share their identity, nor their sender, work and key together.
pub proof fn open_items_are_distinct(state: StateView, scope: Seq<char>)
    requires
        soundness::sound(state),
    ensures
        forall|i: int, j: int|
            0 <= i < j < state.attention_for_scope(scope).len() ==> {
                let a = #[trigger] state.attention_for_scope(scope)[i];
                let b = #[trigger] state.attention_for_scope(scope)[j];
                &&& a.request_id != b.request_id
                &&& !(a.participant_id == b.participant_id && a.work_id == b.work_id
                    && a.request_key == b.request_key)
            },
{
    let items = state.attention_for_scope(scope);
    assert forall|i: int, j: int| 0 <= i < j < items.len() implies {
        let a = #[trigger] items[i];
        let b = #[trigger] items[j];
        &&& a.request_id != b.request_id
        &&& !(a.participant_id == b.participant_id && a.work_id == b.work_id && a.request_key
            == b.request_key)
    } by {
        let (m, n) = sequences::lemma_filter_map_sources(state.signals, state.item_in(scope), i, j);
        let first = state.signals[m];
        let second = state.signals[n];
        assert(first.sequence < second.sequence);
        assert(!second.makes(first.identity()->0.request_id));
        assert(!state.superseded(first));
        assert(!second.supersedes(first));
    }
}

/// The first request of an identity is one that a signal makes; without one, no signal makes it.
pub proof fn lemma_first_request(signals: Seq<StoredSignalView>, request_id: RequestId)
    ensures
        match model::first_request(signals, request_id) {
            Some(i) => 0 <= i < signals.len() && signals[i].makes(request_id),
            None => forall|j: int|
                0 <= j < signals.len() ==> !(#[trigger] signals[j]).makes(request_id),
        },
    decreases signals.len(),
{
    if signals.len() > 0 {
        let init = signals.drop_last();
        lemma_first_request(init, request_id);
        assert forall|j: int| 0 <= j < init.len() implies #[trigger] signals[j] == init[j] by {}
    }
}

proof fn lemma_known_stays(state: StateView, envelope: EventEnvelopeView, request_id: RequestId)
    requires
        state.knows_request(request_id),
    ensures
        state.applied(envelope).knows_request(request_id),
{
    let i = choose|i: int|
        0 <= i < state.signals.len() && (#[trigger] state.signals[i]).makes(request_id);
    assert(state.applied(envelope).signals[i] == state.signals[i]);
}

/// An event refers to nothing unknown, where it resolves or answers only what a signal made.
proof fn lemma_event_refers_to_known(state: StateView, envelope: EventEnvelopeView)
    requires
        refers_to_known(state),
        envelope.event is AttentionResolved ==> state.knows_request(
            envelope.event->AttentionResolved_request_id,
        ),
        envelope.event is DirectionIssued ==> (
        envelope.event->DirectionIssued_direction.target matches Some(target)
            ==> target.request_id is Some && state.knows_request(target.request_id->0)),
    ensures
        refers_to_known(state.applied(envelope)),
{
    let after = state.applied(envelope);
    assert forall|id: RequestId| #[trigger]
        after.resolved_requests.contains(id) implies after.knows_request(id) by {
        assert(state.resolved_requests.contains(id) ==> state.knows_request(id));
        lemma_known_stays(state, envelope, id);
    }
    assert forall|id: DirectionId| #[trigger]
        after.directions.contains_key(id) implies (after.directions[id].target matches Some(target)
        ==> target.request_id is Some && after.knows_request(target.request_id->0)) by {
        if let Some(target) = after.directions[id].target {
            if state.directions.contains_key(id) {
                assert(state.directions[id].target is Some ==> state.directions[
                    id
                ].target->0.request_id is Some);
            }
            lemma_known_stays(state, envelope, target.request_id->0);
        }
    }
}

/// Events that neither resolve nor answer anything refer to nothing unknown.
pub proof fn lemma_run_refers_to_known(state: StateView, envelopes: Seq<EventEnvelopeView>)
    requires
        refers_to_known(state),
        forall|i: int|
            0 <= i < envelopes.len() ==> !((#[trigger] envelopes[i]).event is AttentionResolved)
                && !(envelopes[i].event is DirectionIssued),
    ensures
        refers_to_known(state.replayed(envelopes)),
    decreases envelopes.len(),
{
    if envelopes.len() > 0 {
        let init = envelopes.drop_last();
        assert forall|i: int| 0 <= i < init.len() implies !((
        #[trigger] init[i]).event is AttentionResolved) && !(init[i].event is DirectionIssued) by {
            assert(init[i] == envelopes[i]);
        }
        lemma_run_refers_to_known(state, init);
        assert(envelopes[envelopes.len() - 1] == envelopes.last());
        lemma_event_refers_to_known(state.replayed(init), envelopes.last());
    }
}

/// No decision resolves or answers a request that no signal made.
pub proof fn decisions_refer_to_known_requests(
    state: StateView,
    command: CommandView,
    context: DecisionContext,
    envelopes: Seq<EventEnvelopeView>,
)
    requires
        refers_to_known(state),
        model::carries(envelopes, state.decided(command, context).events()),
    ensures
        refers_to_known(state.replayed(envelopes)),
{
    commands::commands_lead_to_their_events(state, command, context, envelopes);
    match command {
        CommandView::ResolveAttention { request_id, .. } => {
            if envelopes.len() == 1 {
                lemma_first_request(state.signals, request_id);
                replay::replay_of_one(state, envelopes);
                lemma_event_refers_to_known(state, envelopes[0]);
            }
        },
        CommandView::Intervene { scope, message, author, target } => {
            if envelopes.len() == 1 {
                accepted_directions_keep_their_target(
                    state,
                    scope,
                    message,
                    author,
                    target,
                    context,
                );
                if let Some(named) = target {
                    let i = choose|i: int|
                        0 <= i < state.signals.len() && model::names(
                            scope,
                            named,
                            #[trigger] state.signals[i],
                        ) && !state.settled(state.signals[i]);
                    assert(state.signals[i].makes(named.request_id->0));
                }
                replay::replay_of_one(state, envelopes);
                lemma_event_refers_to_known(state, envelopes[0]);
            }
        },
        _ => {
            lemma_run_refers_to_known(state, envelopes);
        },
    }
}

/// A request that was accepted is shown in its scope and among all that needs attention, as the
/// last of its scope.
pub proof fn accepted_requests_are_shown(
    state: StateView,
    participant_id: ParticipantId,
    work_id: Option<WorkId>,
    signal: SignalView,
    context: DecisionContext,
    envelopes: Seq<EventEnvelopeView>,
)
    requires
        state.well_formed(),
        refers_to_known(state),
        within_log(state),
        state.continued_by(envelopes),
        signal.asks_attention(),
        state.published(participant_id, work_id, signal, context) is Accepted,
        model::carries(
            envelopes,
            state.published(participant_id, work_id, signal, context).events(),
        ),
    ensures
        ({
            let after = state.replayed(envelopes);
            let shown = after.attention_for_scope(state.participants[participant_id].scope);
            &&& shown.len() > 0
            &&& signal.request_identity() is Some
            &&& shown.last().request_id == signal.request_identity()->0.request_id
            &&& shown.last().participant_id == participant_id
            &&& shown.last().work_id == work_id
            &&& after.attention().contains(shown.last())
        }),
{
    let scope = state.participants[participant_id].scope;
    let envelope = envelopes[0];
    let id = signal.request_identity()->0.request_id;
    let after = state.replayed(envelopes);
    replay::replay_of_one(state, envelopes);
    assert(!state.knows_request(id));
    if state.answered(stored(envelope)) {
        let d = choose|d: DirectionId|
            state.directions.contains_key(d) && stored(envelope).answered_by(
                (#[trigger] state.directions[d]).target,
            );
        assert(state.knows_request(state.directions[d].target->0.request_id->0));
    }
    assert forall|i: int| 0 <= i < state.signals.len() implies (
    #[trigger] state.signals[i]).sequence < envelope.sequence by {
        assert(state.last_sequence < envelopes[0].sequence);
    }
    new_requests_are_shown(state, envelope);
    signal_supersedes_its_own_only(state, envelope, scope);
    let shown = after.attention_for_scope(scope);
    replay::replay_keeps_form(state, envelopes);
    attention_is_complete_and_ranked(after, shown.last());
    assert(shown.contains(shown.last()));
}

/// Resolving a request that is open takes it, and nothing else, from what is shown.
pub proof fn resolving_closes_one_request(
    state: StateView,
    participant_id: ParticipantId,
    request_id: RequestId,
    summary: Seq<char>,
    context: DecisionContext,
    envelopes: Seq<EventEnvelopeView>,
    scope: Seq<char>,
)
    requires
        state.resolved(participant_id, request_id, summary, context) is Accepted,
        model::carries(
            envelopes,
            state.resolved(participant_id, request_id, summary, context).events(),
        ),
    ensures
        state.replayed(envelopes).attention_for_scope(scope) == state.attention_for_scope(
            scope,
        ).filter(other_than(request_id)),
        state.replayed(envelopes).resolved(participant_id, request_id, summary, context)
            == DecisionView::Rejected("request is no longer open"@),
{
    replay::replay_of_one(state, envelopes);
    resolution_closes_one_request(state, envelopes[0], scope);
}

/// A present participant resolves a request exactly where it says how, the request has been neither
/// resolved nor superseded, and it made the request or owns its work, in the scope that it is in.
pub proof fn requests_are_resolved_by_their_own(
    state: StateView,
    participant_id: ParticipantId,
    request_id: RequestId,
    summary: Seq<char>,
    context: DecisionContext,
)
    requires
        requests_are_distinct(state),
    ensures
        state.resolved(participant_id, request_id, summary, context) is Accepted <==> {
            &&& state.live(participant_id, context.now) is Some
            &&& !text::is_blank(summary)
            &&& !state.resolved_requests.contains(request_id)
            &&& exists|i: int|
                0 <= i < state.signals.len() && (#[trigger] state.signals[i]).makes(request_id)
                    && !state.superseded(state.signals[i]) && state.may_resolve(
                    participant_id,
                    state.participants[participant_id].scope,
                    state.signals[i],
                )
        },
{
    lemma_first_request(state.signals, request_id);
    if let Some(k) = model::first_request(state.signals, request_id) {
        assert forall|i: int|
            0 <= i < state.signals.len() && (#[trigger] state.signals[i]).makes(
                request_id,
            ) implies i == k by {
            if i < k {
                assert(!state.signals[k].makes(state.signals[i].identity()->0.request_id));
            } else if k < i {
                assert(!state.signals[i].makes(state.signals[k].identity()->0.request_id));
            }
        }
    }
}

/// Where an event of a known scope leaves some of the items of each scope, it leaves the same of all
/// that needs attention.
proof fn lemma_attention_narrowed(
    state: StateView,
    envelope: EventEnvelopeView,
    p: spec_fn(AttentionItemView) -> bool,
)
    requires
        state.scopes.contains(envelope.scope),
        forall|scope: Seq<char>| #[trigger]
            state.applied(envelope).attention_for_scope(scope) == state.attention_for_scope(
                scope,
            ).filter(p),
    ensures
        state.applied(envelope).attention() == state.attention().filter(p),
{
    let after = state.applied(envelope);
    assert(after.scopes =~= state.scopes);
    let known = ordered::listing::<String>(state.scopes);
    let f = state.items_by_scope();
    let g = after.items_by_scope();
    assert forall|i: int| 0 <= i < known.len() implies g(#[trigger] known[i]) == f(known[i]).filter(
        p,
    ) by {
        assert(after.attention_for_scope(known[i]) == state.attention_for_scope(known[i]).filter(
            p,
        ));
    }
    sequences::lemma_flat_map_narrower(known, f, g, p);
    sequences::ranking_keeps_selection::<AttentionItem>(known.flat_map(f), p);
}

/// Whether an event neither opens nor closes a request: it is a quiet signal, a broadcast, or neither
/// signal, resolution nor direction.
pub open spec fn leaves_requests(event: EventKindView) -> bool {
    match event {
        EventKindView::SignalPublished { published } => !published.signal.asks_attention(),
        EventKindView::DirectionIssued { direction } => direction.target is None,
        _ => !touches_requests(event),
    }
}

/// Quiet signals, broadcasts, releases, departures, renewals and all other events that neither open
/// nor close a request leave all that needs attention as it is. The event continues the log, and a
/// direction's identity is new.
pub proof fn quiet_events_keep_all_attention(state: StateView, envelope: EventEnvelopeView)
    requires
        soundness::sound(state),
        state.last_sequence < envelope.sequence,
        leaves_requests(envelope.event),
        envelope.event is DirectionIssued ==> !state.directions.contains_key(
            envelope.event->DirectionIssued_direction.id,
        ),
    ensures
        state.applied(envelope).attention() == state.attention(),
{
    let after = state.applied(envelope);
    let new = envelope.scope;
    let known = ordered::listing::<String>(state.scopes);
    let all = ordered::listing::<String>(after.scopes);
    let f = state.items_by_scope();
    let g = after.items_by_scope();
    assert forall|scope: Seq<char>| #[trigger] f(scope) == g(scope) by {
        if envelope.event is SignalPublished {
            quiet_signals_keep_attention(state, envelope, scope);
        } else if envelope.event is DirectionIssued {
            direction_closes_what_it_answers(state, envelope, scope);
        } else {
            other_events_keep_attention(state, envelope, scope);
        }
    }
    assert(f =~= g);
    if state.scopes.contains(new) {
        assert(after.scopes =~= state.scopes);
    } else {
        let p = |scope: Seq<char>| scope != new;
        assert(after.scopes.finite());
        ordered::lemma_listing_filter::<String>(after.scopes, p);
        assert(after.scopes.filter(p) =~= state.scopes);
        assert(f(new).len() == 0) by {
            if f(new).len() > 0 {
                let item = f(new)[0];
                assert(state.attention_for_scope(new).contains(item));
                items_are_open_requests(state, new, item);
                let i = choose|i: int|
                    0 <= i < state.signals.len() && state.attention_item(
                        new,
                        #[trigger] state.signals[i],
                    ) == Some(item);
                assert(state.scopes.contains(state.signals[i].scope));
            }
        }
        sequences::lemma_flat_map_without(all, f, p);
    }
}

/// Resolving a request that is open takes it, and nothing else, from all that needs attention; the
/// rest keeps its order.
pub proof fn resolving_leaves_the_rest(
    state: StateView,
    participant_id: ParticipantId,
    request_id: RequestId,
    summary: Seq<char>,
    context: DecisionContext,
    envelopes: Seq<EventEnvelopeView>,
)
    requires
        soundness::sound(state),
        state.resolved(participant_id, request_id, summary, context) is Accepted,
        model::carries(
            envelopes,
            state.resolved(participant_id, request_id, summary, context).events(),
        ),
    ensures
        state.replayed(envelopes).attention() == state.attention().filter(other_than(request_id)),
{
    replay::replay_of_one(state, envelopes);
    lemma_first_request(state.signals, request_id);
    assert forall|scope: Seq<char>| #[trigger]
        state.applied(envelopes[0]).attention_for_scope(scope) == state.attention_for_scope(
            scope,
        ).filter(other_than(request_id)) by {
        resolution_closes_one_request(state, envelopes[0], scope);
    }
    lemma_attention_narrowed(state, envelopes[0], other_than(request_id));
}

/// Directing an answer at an open request takes it, and nothing else, from what is shown; a
/// broadcast takes nothing. The direction's identity is new.
pub proof fn directing_closes_what_it_answers(
    state: StateView,
    in_scope: Seq<char>,
    message: Seq<char>,
    author: Seq<char>,
    target: Option<DirectionTarget>,
    context: DecisionContext,
    envelopes: Seq<EventEnvelopeView>,
    scope: Seq<char>,
)
    requires
        state.directed(in_scope, message, author, target, context) is Accepted,
        !state.directions.contains_key(context.direction_id),
        model::carries(
            envelopes,
            state.directed(in_scope, message, author, target, context).events(),
        ),
    ensures
        target is Some ==> state.replayed(envelopes).attention_for_scope(scope)
            == state.attention_for_scope(scope).filter(other_than(target->0.request_id->0)),
        target is None ==> state.replayed(envelopes).attention_for_scope(scope)
            == state.attention_for_scope(scope),
        target is Some ==> state.replayed(envelopes).directed(
            in_scope,
            message,
            author,
            target,
            context,
        ) == DecisionView::Rejected(
            "direction target does not identify a source request in this workspace"@,
        ),
{
    replay::replay_of_one(state, envelopes);
    direction_closes_what_it_answers(state, envelopes[0], scope);
    if let Some(named) = target {
        let i = choose|i: int|
            0 <= i < state.signals.len() && model::names(
                in_scope,
                named,
                #[trigger] state.signals[i],
            ) && !state.settled(state.signals[i]);
        assert(named.request_id is Some);
        assert(unanswered_by(target) =~= other_than(named.request_id->0));
        let after = state.replayed(envelopes);
        assert forall|k: int|
            0 <= k < after.signals.len() && model::names(
                in_scope,
                named,
                #[trigger] after.signals[k],
            ) implies after.settled(after.signals[k]) by {
            assert(after.directions.contains_key(context.direction_id));
            assert(after.signals[k].answered_by(after.directions[context.direction_id].target));
        }
    }
}

/// The target that names the request of an item.
pub open spec fn target_of(item: AttentionItemView) -> DirectionTarget {
    DirectionTarget {
        source_event_id: item.source_event_id,
        participant_id: item.participant_id,
        work_id: item.work_id,
        request_id: Some(item.request_id),
    }
}

/// Every item can be answered: a direction with a message and an author, given in the item's scope
/// and aimed at it by its own marks, is accepted, with itself as the only event.
pub proof fn items_can_be_answered(
    state: StateView,
    item: AttentionItemView,
    message: Seq<char>,
    author: Seq<char>,
    context: DecisionContext,
)
    requires
        soundness::sound(state),
        state.attention().contains(item),
        !text::is_blank(message),
        !text::is_blank(author),
    ensures
        state.directed(item.source_scope, message, author, Some(target_of(item)), context)
            == model::accepted(
            item.source_scope,
            EventKindView::DirectionIssued {
                direction: DirectionView {
                    id: context.direction_id,
                    scope: item.source_scope,
                    message,
                    author,
                    created_at: context.now,
                    target: Some(target_of(item)),
                    deliveries: Seq::empty(),
                },
            },
            None,
            None,
        ),
        state.scopes.contains(item.source_scope),
{
    attention_is_complete_and_ranked(state, item);
    let scope = choose|scope: Seq<char>|
        state.scopes.contains(scope) && #[trigger] state.attention_for_scope(scope).contains(item);
    items_are_open_requests(state, scope, item);
    let i = choose|i: int|
        0 <= i < state.signals.len() && state.attention_item(scope, #[trigger] state.signals[i])
            == Some(item);
    assert(model::names(scope, target_of(item), state.signals[i]));
    assert(!state.settled(state.signals[i]));
}

/// An answer takes the item, and nothing else, from all that needs attention; the rest keeps its
/// order. The same answer is refused from then on. The direction's identity is new.
pub proof fn answers_close_their_item(
    state: StateView,
    item: AttentionItemView,
    message: Seq<char>,
    author: Seq<char>,
    context: DecisionContext,
    envelopes: Seq<EventEnvelopeView>,
)
    requires
        soundness::sound(state),
        state.attention().contains(item),
        !text::is_blank(message),
        !text::is_blank(author),
        !state.directions.contains_key(context.direction_id),
        model::carries(
            envelopes,
            state.directed(
                item.source_scope,
                message,
                author,
                Some(target_of(item)),
                context,
            ).events(),
        ),
    ensures
        state.replayed(envelopes).attention() == state.attention().filter(
            other_than(item.request_id),
        ),
        !state.replayed(envelopes).attention().contains(item),
        state.replayed(envelopes).directed(
            item.source_scope,
            message,
            author,
            Some(target_of(item)),
            context,
        ) == DecisionView::Rejected(
            "direction target does not identify a source request in this workspace"@,
        ),
{
    let target = Some(target_of(item));
    let p = other_than(item.request_id);
    items_can_be_answered(state, item, message, author, context);
    replay::replay_of_one(state, envelopes);
    assert forall|scope: Seq<char>| #[trigger]
        state.applied(envelopes[0]).attention_for_scope(scope) == state.attention_for_scope(
            scope,
        ).filter(p) by {
        directing_closes_what_it_answers(
            state,
            item.source_scope,
            message,
            author,
            target,
            context,
            envelopes,
            scope,
        );
    }
    directing_closes_what_it_answers(
        state,
        item.source_scope,
        message,
        author,
        target,
        context,
        envelopes,
        item.source_scope,
    );
    lemma_attention_narrowed(state, envelopes[0], p);
    let left = state.attention().filter(p);
    if left.contains(item) {
        let k = left.index_of(item);
        state.attention().lemma_filter_pred(p, k);
    }
}

} // verus!
