//! Requests: which signals are fit, and what a human is shown of them.
use vstd::prelude::*;

use crate::coordination::DecisionContext;
use crate::laws::attention;
use crate::laws::outcomes;
use crate::laws::soundness;
use crate::model;
use crate::model::StateView;
use crate::protocol::{
    ArtifactKind, ArtifactRef, ArtifactRefView, AttentionCategory, AttentionItemView,
    AttentionRequestView, CommandView, DirectionTarget, EventEnvelopeView, ParticipantId,
    RequestIdentityView, SignalView, WorkId,
};
use crate::sequences;
use crate::text;

verus! {

/// The parts that signals have in common: the summary, the artifacts, and the identity of a request.
pub open spec fn parts_of(signal: SignalView) -> (
    Seq<char>,
    Seq<ArtifactRefView>,
    Option<RequestIdentityView>,
) {
    match signal {
        SignalView::Working { summary } => (summary, Seq::empty(), None),
        SignalView::Finding { summary, artifacts } => (summary, artifacts, None),
        SignalView::Offering { summary, artifacts } => (summary, artifacts, None),
        SignalView::Checkpoint { summary, artifacts } => (summary, artifacts, None),
        SignalView::Done { summary, evidence } => (summary, evidence, None),
        SignalView::HelpNeeded { identity, summary, evidence, .. } => (summary, evidence, identity),
        SignalView::Blocked { identity, summary, evidence, .. } => (summary, evidence, identity),
        SignalView::DecisionNeeded { identity, summary, evidence, .. } => (
            summary,
            evidence,
            identity,
        ),
        SignalView::ReviewRequested { identity, summary, evidence, .. } => (
            summary,
            evidence,
            identity,
        ),
    }
}

/// Whether a signal is a call for help, a question, a block or a call for review.
pub open spec fn is_request(signal: SignalView) -> bool {
    signal is HelpNeeded || signal is DecisionNeeded || signal is Blocked
        || signal is ReviewRequested
}

/// Signals are fit by what they hold: a summary, an address for each artifact, and for a request a
/// key and what a human needs to act on it. What is missing first is the reason why one is not.
pub proof fn signals_are_fit_by_what_they_hold(signal: SignalView)
    ensures
        ({
            let (summary, artifacts, identity) = parts_of(signal);
            let addressed = forall|i: int|
                0 <= i < artifacts.len() ==> !text::is_blank((#[trigger] artifacts[i]).uri);
            let keyed = is_request(signal) ==> identity is Some && !text::is_blank(
                identity->0.request_key,
            );
            let actionable = match signal {
                SignalView::HelpNeeded { requested_action, .. } => !text::is_blank(requested_action),
                SignalView::Blocked { requested_action, .. } => !text::is_blank(requested_action),
                SignalView::DecisionNeeded { choices, recommendation, evidence, .. } => {
                    &&& choices.len() <= 9
                    &&& forall|i: int|
                        0 <= i < choices.len() ==> !text::is_blank(#[trigger] choices[i])
                    &&& recommendation is Some ==> !text::is_blank(recommendation->0)
                    &&& evidence.len() > 0
                },
                SignalView::ReviewRequested { requested_action, known_risk, evidence, .. } => {
                    &&& !text::is_blank(requested_action)
                    &&& !text::is_blank(known_risk)
                    &&& exists|i: int|
                        0 <= i < evidence.len() && ((
                        #[trigger] evidence[i]).kind == ArtifactKind::Patch || evidence[i].kind
                            == ArtifactKind::Revision)
                    &&& exists|i: int|
                        0 <= i < evidence.len() && (#[trigger] evidence[i]).kind
                            == ArtifactKind::TestReceipt
                },
                _ => true,
            };
            &&& signal.fault() is None <==> !text::is_blank(summary) && addressed && keyed
                && actionable
            &&& text::is_blank(summary) ==> signal.fault() == Some("summary must not be empty"@)
            &&& !text::is_blank(summary) && !addressed ==> signal.fault() == Some(
                "artifact URI must not be empty"@,
            )
            &&& !text::is_blank(summary) && addressed && is_request(signal) && identity is None
                ==> signal.fault() == Some("attention request needs request identity"@)
            &&& !text::is_blank(summary) && addressed && is_request(signal) && identity is Some
                && text::is_blank(identity->0.request_key) ==> signal.fault() == Some(
                "request key must not be empty"@,
            )
            &&& !text::is_blank(summary) && addressed && keyed ==> match signal {
                SignalView::HelpNeeded { requested_action, .. } => text::is_blank(requested_action)
                    ==> signal.fault() == Some("requested action must not be empty"@),
                SignalView::Blocked { requested_action, .. } => text::is_blank(requested_action)
                    ==> signal.fault() == Some("requested action must not be empty"@),
                SignalView::DecisionNeeded { choices, recommendation, evidence, .. } => {
                    let worded = forall|i: int|
                        0 <= i < choices.len() ==> !text::is_blank(#[trigger] choices[i]);
                    let recommended = recommendation is Some ==> !text::is_blank(recommendation->0);
                    &&& choices.len() > 9 ==> signal.fault() == Some(
                        "a decision request supports at most 9 choices"@,
                    )
                    &&& choices.len() <= 9 && !worded ==> signal.fault() == Some(
                        "choice must not be empty"@,
                    )
                    &&& choices.len() <= 9 && worded && !recommended ==> signal.fault() == Some(
                        "recommendation must not be empty"@,
                    )
                    &&& choices.len() <= 9 && worded && recommended && evidence.len() == 0
                        ==> signal.fault() == Some("a decision request needs supporting evidence"@)
                },
                SignalView::ReviewRequested { requested_action, known_risk, evidence, .. } => {
                    let changed = exists|i: int|
                        0 <= i < evidence.len() && ((
                        #[trigger] evidence[i]).kind == ArtifactKind::Patch || evidence[i].kind
                            == ArtifactKind::Revision);
                    let tested = exists|i: int|
                        0 <= i < evidence.len() && (#[trigger] evidence[i]).kind
                            == ArtifactKind::TestReceipt;
                    &&& text::is_blank(requested_action) ==> signal.fault() == Some(
                        "requested action must not be empty"@,
                    )
                    &&& !text::is_blank(requested_action) && text::is_blank(known_risk)
                        ==> signal.fault() == Some("known risk must not be empty"@)
                    &&& !text::is_blank(requested_action) && !text::is_blank(known_risk) && !changed
                        ==> signal.fault() == Some(
                        "a review request needs a revision or diff artifact"@,
                    )
                    &&& !text::is_blank(requested_action) && !text::is_blank(known_risk) && changed
                        && !tested ==> signal.fault() == Some(
                        "a review request needs a verification receipt"@,
                    )
                },
                _ => true,
            }
        }),
{
    reveal_strlit(" must not be empty");
    reveal_strlit("summary");
    reveal_strlit("summary must not be empty");
    reveal_strlit("artifact URI");
    reveal_strlit("artifact URI must not be empty");
    reveal_strlit("request key");
    reveal_strlit("request key must not be empty");
    reveal_strlit("requested action");
    reveal_strlit("requested action must not be empty");
    reveal_strlit("choice");
    reveal_strlit("choice must not be empty");
    reveal_strlit("recommendation");
    reveal_strlit("recommendation must not be empty");
    reveal_strlit("known risk");
    reveal_strlit("known risk must not be empty");
    assert("summary"@ + " must not be empty"@ =~= "summary must not be empty"@);
    assert("artifact URI"@ + " must not be empty"@ =~= "artifact URI must not be empty"@);
    assert("request key"@ + " must not be empty"@ =~= "request key must not be empty"@);
    assert("requested action"@ + " must not be empty"@ =~= "requested action must not be empty"@);
    assert("choice"@ + " must not be empty"@ =~= "choice must not be empty"@);
    assert("recommendation"@ + " must not be empty"@ =~= "recommendation must not be empty"@);
    assert("known risk"@ + " must not be empty"@ =~= "known risk must not be empty"@);
}

/// What a human is asked is what the signal says, word for word; where a call for help, a block or a
/// call for review says nothing of what to do or of the risk, a plain sentence stands in.
pub proof fn requests_say_what_their_signal_says(signal: SignalView)
    ensures
        signal.attention() is Some <==> is_request(signal),
        signal.attention() matches Some(asked) ==> match signal {
            SignalView::DecisionNeeded { summary, choices, recommendation, evidence, .. } => {
                &&& asked.0 == AttentionCategory::Decision
                &&& asked.1 is Decision
                &&& asked.1->question == summary
                &&& asked.1->choices == choices
                &&& asked.1->recommendation == recommendation
                &&& asked.2 == evidence
            },
            SignalView::Blocked { summary, requested_action, evidence, .. } => {
                &&& asked.0 == AttentionCategory::Blocked
                &&& asked.1 is Intervention
                &&& asked.1->blocker == summary
                &&& asked.1->Intervention_requested_action == if text::is_blank(
                    requested_action,
                ) {
                    "Provide direction to unblock this work."@
                } else {
                    requested_action
                }
                &&& asked.2 == evidence
            },
            SignalView::HelpNeeded { summary, requested_action, evidence, .. } => {
                &&& asked.0 == AttentionCategory::Help
                &&& asked.1 is Intervention
                &&& asked.1->blocker == summary
                &&& asked.1->Intervention_requested_action == if text::is_blank(
                    requested_action,
                ) {
                    "Provide the requested help or direction."@
                } else {
                    requested_action
                }
                &&& asked.2 == evidence
            },
            SignalView::ReviewRequested { summary, requested_action, known_risk, evidence, .. } => {
                &&& asked.0 == AttentionCategory::ReadyForReview
                &&& asked.1 is Review
                &&& asked.1->summary == summary
                &&& asked.1->Review_requested_action == if text::is_blank(
                    requested_action,
                ) {
                    "Inspect the referenced change and mark it reviewed or request changes."@
                } else {
                    requested_action
                }
                &&& asked.1->known_risk == if text::is_blank(known_risk) {
                    "Not recorded by the legacy request."@
                } else {
                    known_risk
                }
                &&& asked.2 == evidence
            },
            _ => false,
        },
        signal.artifacts() == parts_of(signal).1,
        signal.request_identity() == parts_of(signal).2,
        signal.asks_attention() == is_request(signal),
        signal.requires_work() <==> signal is Working || signal is Checkpoint
            || signal is ReviewRequested || signal is Done,
{
}

/// Whether an item asks what a fit signal says, field by field.
pub open spec fn asks_what_was_said(item: AttentionItemView, signal: SignalView) -> bool {
    match signal {
        SignalView::DecisionNeeded { identity, summary, choices, recommendation, .. } => {
            &&& item.category == AttentionCategory::Decision
            &&& item.request == (AttentionRequestView::Decision {
                question: summary,
                choices,
                recommendation,
            })
            &&& identity is Some
            &&& item.request_id == identity->0.request_id
            &&& item.request_key == identity->0.request_key
        },
        SignalView::Blocked { identity, summary, requested_action, .. } => {
            &&& item.category == AttentionCategory::Blocked
            &&& item.request == (AttentionRequestView::Intervention {
                blocker: summary,
                requested_action,
            })
            &&& identity is Some
            &&& item.request_id == identity->0.request_id
            &&& item.request_key == identity->0.request_key
        },
        SignalView::HelpNeeded { identity, summary, requested_action, .. } => {
            &&& item.category == AttentionCategory::Help
            &&& item.request == (AttentionRequestView::Intervention {
                blocker: summary,
                requested_action,
            })
            &&& identity is Some
            &&& item.request_id == identity->0.request_id
            &&& item.request_key == identity->0.request_key
        },
        SignalView::ReviewRequested { identity, summary, requested_action, known_risk, .. } => {
            &&& item.category == AttentionCategory::ReadyForReview
            &&& item.request == (AttentionRequestView::Review {
                summary,
                requested_action,
                known_risk,
            })
            &&& identity is Some
            &&& item.request_id == identity->0.request_id
            &&& item.request_key == identity->0.request_key
        },
        _ => false,
    }
}

/// Whether an artifact belongs to the evidence of a request: the request names it, or an earlier
/// signal of its scope on the same work that asks nothing does.
pub open spec fn is_evidence(state: StateView, at: int, artifact: ArtifactRefView) -> bool {
    let source = state.signals[at];
    ||| parts_of(source.published.signal).1.contains(artifact)
    ||| exists|j: int|
        0 <= j < state.signals.len() && parts_of(
            (#[trigger] state.signals[j]).published.signal,
        ).1.contains(artifact) && state.signals[j].scope == source.scope
            && state.signals[j].sequence < source.sequence && state.signals[j].published.work_id
            == source.published.work_id && !is_request(state.signals[j].published.signal)
}

/// Whether one artifact is listed before another: files, patches, revisions, receipts of tests,
/// addresses; within a kind by the order of the addresses.
pub open spec fn is_listed_before(a: ArtifactRefView, b: ArtifactRefView) -> bool {
    let place = |kind: ArtifactKind|
        match kind {
            ArtifactKind::File => 1int,
            ArtifactKind::Patch => 2,
            ArtifactKind::Revision => 3,
            ArtifactKind::TestReceipt => 4,
            ArtifactKind::Url => 5,
        };
    place(a.kind) < place(b.kind) || (place(a.kind) == place(b.kind) && text::text_before(
        a.uri,
        b.uri,
    ))
}

/// Whether an item shows the request of a signal: what it asks, by whom, on which work, when and
/// where, as open, with its evidence in order and none of it twice in a row.
pub open spec fn shows(state: StateView, at: int, item: AttentionItemView) -> bool {
    let source = state.signals[at];
    &&& asks_what_was_said(item, source.published.signal)
    &&& item.source_scope == source.scope
    &&& item.source_event_id == source.event_id
    &&& item.work_id == source.published.work_id
    &&& item.participant_id == source.published.participant_id
    &&& item.created_at == source.published.published_at
    &&& item.lifecycle is Open
    &&& item.target.scope == source.scope
    &&& item.target.event_id == source.event_id
    &&& forall|artifact: ArtifactRefView| #[trigger]
        item.evidence.contains(artifact) <==> is_evidence(state, at, artifact)
    &&& forall|i: int, j: int|
        0 <= i < j < item.evidence.len() ==> !is_listed_before(
            #[trigger] item.evidence[j],
            #[trigger] item.evidence[i],
        )
    &&& forall|i: int|
        0 < i < item.evidence.len() ==> #[trigger] item.evidence[i] != item.evidence[i - 1]
}

/// Whether the request of a signal is open: it was fit, was not resolved, no other took its place,
/// and no direction answers it.
pub open spec fn is_open(state: StateView, at: int) -> bool {
    let source = state.signals[at];
    &&& is_request(source.published.signal)
    &&& source.published.signal.fault() is None
    &&& outcomes::fits_open_request(
        state,
        source.scope,
        DirectionTarget {
            request_id: Some(parts_of(source.published.signal).2->0.request_id),
            source_event_id: source.event_id,
            participant_id: source.published.participant_id,
            work_id: source.published.work_id,
        },
        at,
    )
}

proof fn lemma_evidence(state: StateView, at: int, own: Seq<ArtifactRefView>)
    requires
        0 <= at < state.signals.len(),
        own == parts_of(state.signals[at].published.signal).1,
    ensures
        ({
            let evidence = state.evidence(state.signals[at].scope, state.signals[at], own);
            &&& forall|artifact: ArtifactRefView| #[trigger]
                evidence.contains(artifact) <==> is_evidence(state, at, artifact)
            &&& forall|i: int, j: int|
                0 <= i < j < evidence.len() ==> !is_listed_before(
                    #[trigger] evidence[j],
                    #[trigger] evidence[i],
                )
            &&& forall|i: int|
                0 < i < evidence.len() ==> #[trigger] evidence[i] != evidence[i - 1]
        }),
{
    let source = state.signals[at];
    let b = StateView::background(source.scope, source);
    let gathered = state.signals.flat_map(b);
    let all = gathered + own;
    let ranked = sequences::ranked::<ArtifactRef>(all);
    let evidence = sequences::without_repeats(ranked);
    sequences::repeats_are_left_out(ranked);
    sequences::ranking_arranges::<ArtifactRef>(all, arbitrary());
    assert forall|artifact: ArtifactRefView| #[trigger]
        evidence.contains(artifact) <==> is_evidence(state, at, artifact) by {
        vstd::seq_lib::to_multiset_contains(all, artifact);
        vstd::seq_lib::to_multiset_contains(ranked, artifact);
        sequences::lemma_flat_map_contains(state.signals, b, artifact);
        if all.contains(artifact) {
            let k = all.index_of(artifact);
            if k < gathered.len() {
                assert(gathered[k] == artifact);
                let j = choose|j: int|
                    0 <= j < state.signals.len() && b(#[trigger] state.signals[j]).contains(
                        artifact,
                    );
                requests_say_what_their_signal_says(state.signals[j].published.signal);
            } else {
                assert(own[k - gathered.len()] == artifact);
            }
        }
        if own.contains(artifact) {
            let k = own.index_of(artifact);
            assert(all[gathered.len() + k] == artifact);
        } else if is_evidence(state, at, artifact) {
            let j = choose|j: int|
                0 <= j < state.signals.len() && parts_of(
                    (#[trigger] state.signals[j]).published.signal,
                ).1.contains(artifact) && state.signals[j].scope == source.scope
                    && state.signals[j].sequence < source.sequence
                    && state.signals[j].published.work_id == source.published.work_id
                    && !is_request(state.signals[j].published.signal);
            requests_say_what_their_signal_says(state.signals[j].published.signal);
            assert(b(state.signals[j]).contains(artifact));
            let k = gathered.index_of(artifact);
            assert(all[k] == artifact);
        }
    }
    assert forall|i: int, j: int| 0 <= i < j < evidence.len() implies !is_listed_before(
        #[trigger] evidence[j],
        #[trigger] evidence[i],
    ) by {
        let (m, n) = sequences::lemma_without_repeats_sources(ranked, i, j);
        assert(!<ArtifactRef as sequences::Ranked>::ahead(ranked[n], ranked[m]));
    }
}

/// Each open request of a scope is shown as its signal made it, and nothing else is shown there.
pub proof fn open_requests_are_shown_as_made(
    state: StateView,
    scope: Seq<char>,
    item: AttentionItemView,
)
    ensures
        state.attention_for_scope(scope).contains(item) ==> exists|at: int|
            0 <= at < state.signals.len() && state.signals[at].scope == scope && is_open(state, at)
                && #[trigger] shows(state, at, item),
        forall|at: int|
            0 <= at < state.signals.len() && state.signals[at].scope == scope
                && #[trigger] is_open(state, at) ==> exists|shown: AttentionItemView|
                state.attention_for_scope(scope).contains(shown) && #[trigger] shows(
                    state,
                    at,
                    shown,
                ),
{
    attention::items_are_open_requests(state, scope, item);
    if state.attention_for_scope(scope).contains(item) {
        let at = choose|at: int|
            0 <= at < state.signals.len() && state.attention_item(
                scope,
                #[trigger] state.signals[at],
            ) == Some(item);
        lemma_item(state, at);
        assert(shows(state, at, item));
    }
    assert forall|at: int|
        0 <= at < state.signals.len() && state.signals[at].scope == scope
            && #[trigger] is_open(state, at) implies exists|shown: AttentionItemView|
        state.attention_for_scope(scope).contains(shown) && #[trigger] shows(
            state,
            at,
            shown,
        ) by {
        lemma_item(state, at);
        let shown = state.attention_item(scope, state.signals[at])->0;
        attention::items_are_open_requests(state, scope, shown);
        assert(shows(state, at, shown));
    }
}

proof fn lemma_item(state: StateView, at: int)
    requires
        0 <= at < state.signals.len(),
    ensures
        state.attention_item(state.signals[at].scope, state.signals[at]) is Some <==> is_open(
            state,
            at,
        ),
        is_open(state, at) ==> shows(
            state,
            at,
            state.attention_item(state.signals[at].scope, state.signals[at])->0,
        ),
{
    let source = state.signals[at];
    let signal = source.published.signal;
    requests_say_what_their_signal_says(signal);
    signals_are_fit_by_what_they_hold(signal);
    if is_request(signal) && signal.fault() is None {
        let target = DirectionTarget {
            request_id: Some(parts_of(signal).2->0.request_id),
            source_event_id: source.event_id,
            participant_id: source.published.participant_id,
            work_id: source.published.work_id,
        };
        outcomes::lemma_fits(state, source.scope, target, at);
        lemma_evidence(state, at, parts_of(signal).1);
    }
}

/// A request that was accepted is shown, in its scope and among all that needs attention, with what
/// it asks, its own evidence, its sender, its work and the time, as it was given.
pub proof fn accepted_requests_are_shown_as_given(
    state: StateView,
    participant_id: ParticipantId,
    work_id: Option<WorkId>,
    signal: SignalView,
    context: DecisionContext,
    envelopes: Seq<EventEnvelopeView>,
)
    requires
        soundness::sound(state),
        state.continued_by(envelopes),
        is_request(signal),
        state.decided(
            CommandView::PublishSignal { participant_id, work_id, signal },
            context,
        ) is Accepted,
        model::carries(
            envelopes,
            state.decided(
                CommandView::PublishSignal { participant_id, work_id, signal },
                context,
            ).events(),
        ),
    ensures
        exists|item: AttentionItemView|
            {
                let after = state.replayed(envelopes);
                let scope = state.participants[participant_id].scope;
                &&& #[trigger] asks_what_was_said(item, signal)
                &&& after.attention().contains(item)
                &&& after.snapshot(scope).attention.contains(item)
                &&& item.source_scope == scope
                &&& item.source_event_id == envelopes[0].event_id
                &&& item.participant_id == participant_id
                &&& item.work_id == work_id
                &&& item.created_at == context.now
                &&& item.lifecycle is Open
                &&& forall|i: int|
                    0 <= i < parts_of(signal).1.len() ==> item.evidence.contains(
                        #[trigger] parts_of(signal).1[i],
                    )
            },
{
    let after = state.replayed(envelopes);
    let scope = state.participants[participant_id].scope;
    let n = state.signals.len() as int;
    requests_say_what_their_signal_says(signal);
    outcomes::publishing_adds_the_signal(state, participant_id, work_id, signal, context, envelopes);
    attention::accepted_requests_are_shown(
        state,
        participant_id,
        work_id,
        signal,
        context,
        envelopes,
    );
    let shown = after.attention_for_scope(scope);
    let item = shown.last();
    assert(shown.contains(item));
    open_requests_are_shown_as_made(after, scope, item);
    let at = choose|at: int|
        0 <= at < after.signals.len() && after.signals[at].scope == scope && is_open(after, at)
            && #[trigger] shows(after, at, item);
    let id = signal.request_identity()->0.request_id;
    if at < n {
        outcomes::fit_signals_are_published(state, participant_id, work_id, signal, context);
        assert(after.signals[at] == state.signals[at]);
        assert(outcomes::asks_as(signal, id));
        assert(outcomes::asks_as(state.signals[at].published.signal, id));
    }
    assert(at == n);
    assert forall|i: int| 0 <= i < parts_of(signal).1.len() implies item.evidence.contains(
        #[trigger] parts_of(signal).1[i],
    ) by {
        assert(is_evidence(after, at, parts_of(signal).1[i]));
    }
    assert(asks_what_was_said(item, signal));
}

} // verus!
