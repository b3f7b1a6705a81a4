//! Reading: what snapshots, lists and summaries show of the state.
use vstd::prelude::*;

use crate::laws::attention;
use crate::laws::soundness;
use crate::model;
use crate::model::{StateView, StoredSignalView};
use crate::ordered;
use crate::protocol::{
    AttentionCategory, AttentionItem, AttentionItemView, DirectionId, DirectionView,
    EventEnvelopeView, ParticipantId, ParticipantView, WorkClaimView, WorkId, WorkspaceLifecycle,
    WorkspaceSummary,
};
use crate::sequences;
use crate::text;

verus! {

proof fn lemma_listed<K: ordered::Key, B>(
    m: Map<<K as DeepView>::V, B>,
    p: spec_fn(B) -> bool,
) -> (keys: Seq<<K as DeepView>::V>)
    requires
        m.dom().finite(),
    ensures
        ({
            let list = ordered::in_order::<K, B>(m).filter(p);
            &&& keys.len() == list.len()
            &&& ordered::increasing::<K>(keys)
            &&& forall|i: int|
                0 <= i < list.len() ==> m.contains_key(keys[i]) && #[trigger] list[i] == m[keys[i]]
                    && p(list[i])
            &&& forall|k: <K as DeepView>::V| #[trigger]
                m.contains_key(k) && p(m[k]) ==> keys.contains(k)
        }),
{
    let part = m.restrict(Set::new(|k: <K as DeepView>::V| m.contains_key(k) && p(m[k])));
    ordered::lemma_in_order_filter::<K, B>(m, p);
    assert(part.dom().subset_of(m.dom()));
    vstd::set_lib::lemma_set_subset_finite(m.dom(), part.dom());
    ordered::lemma_in_order::<K, B>(part);
    ordered::lemma_listing_of_finite::<K>(part.dom());
    let keys = ordered::listing::<K>(part.dom());
    let list = ordered::in_order::<K, B>(part);
    assert forall|i: int| 0 <= i < list.len() implies m.contains_key(keys[i]) && #[trigger] list[i]
        == m[keys[i]] && p(list[i]) by {
        assert(list[i] == part[keys[i]]);
        assert(part.contains_key(keys[i]));
    }
    assert forall|k: <K as DeepView>::V| #[trigger] m.contains_key(k) && p(m[k]) implies keys.contains(
        k,
    ) by {
        assert(part.contains_key(k));
    }
    keys
}

/// A snapshot shows who is present in the scope and what is claimed there, all of it and nothing
/// from elsewhere, in the order of the identities; with the workspace, the counters and the last
/// sequence that are known of it.
pub proof fn snapshots_show_their_scope(state: StateView, scope: Seq<char>)
    requires
        state.well_formed(),
    ensures
        ({
            let shown = state.snapshot(scope);
            &&& shown.scope == scope
            &&& shown.workspace == if state.workspaces.contains_key(scope) {
                Some(state.workspaces[scope])
            } else {
                None
            }
            &&& forall|id: ParticipantId| #[trigger]
                state.participants.contains_key(id) ==> (shown.participants.contains(
                    state.participants[id],
                ) <==> state.participants[id].scope == scope)
            &&& forall|i: int|
                0 <= i < shown.participants.len() ==> state.participants.contains_key(
                    (#[trigger] shown.participants[i]).id,
                ) && state.participants[shown.participants[i].id] == shown.participants[i]
            &&& forall|i: int, j: int|
                0 <= i < j < shown.participants.len() ==> (#[trigger] shown.participants[i]).id.0 < (
                #[trigger] shown.participants[j]).id.0
            &&& forall|id: WorkId| #[trigger]
                state.work.contains_key(id) ==> (shown.active_work.contains(state.work[id])
                    <==> state.work[id].scope == scope)
            &&& forall|i: int|
                0 <= i < shown.active_work.len() ==> state.work.contains_key(
                    (#[trigger] shown.active_work[i]).id,
                ) && state.work[shown.active_work[i].id] == shown.active_work[i]
            &&& forall|i: int, j: int|
                0 <= i < j < shown.active_work.len() ==> (#[trigger] shown.active_work[i]).id.0 < (
                #[trigger] shown.active_work[j]).id.0
            &&& shown.attention == state.attention_for_scope(scope)
            &&& state.metrics.contains_key(scope) ==> shown.metrics == state.metrics[scope]
            &&& !state.metrics.contains_key(scope) ==> shown.metrics.prevented_overlaps == 0
                && shown.metrics.human_interventions == 0
            &&& shown.last_sequence == if state.scope_sequences.contains_key(scope) {
                state.scope_sequences[scope]
            } else {
                0
            }
        }),
{
    let shown = state.snapshot(scope);
    let p = model::participant_in(scope);
    let q = model::work_in(scope);
    let pk = lemma_listed::<ParticipantId, ParticipantView>(state.participants, p);
    let wk = lemma_listed::<WorkId, WorkClaimView>(state.work, q);
    assert forall|i: int, j: int| 0 <= i < j < shown.participants.len() implies (
    #[trigger] shown.participants[i]).id.0 < (#[trigger] shown.participants[j]).id.0 by {
        assert(<ParticipantId as ordered::Key>::before(pk[i], pk[j]));
    }
    assert forall|i: int, j: int| 0 <= i < j < shown.active_work.len() implies (
    #[trigger] shown.active_work[i]).id.0 < (#[trigger] shown.active_work[j]).id.0 by {
        assert(<WorkId as ordered::Key>::before(wk[i], wk[j]));
    }
    assert forall|id: ParticipantId| #[trigger] state.participants.contains_key(id) implies (
    shown.participants.contains(state.participants[id]) <==> state.participants[id].scope
        == scope) by {
        if state.participants[id].scope == scope {
            assert(p(state.participants[id]));
            let k = pk.index_of(id);
            assert(shown.participants[k] == state.participants[id]);
        }
        if shown.participants.contains(state.participants[id]) {
            let k = shown.participants.index_of(state.participants[id]);
            assert(p(shown.participants[k]));
        }
    }
    assert forall|id: WorkId| #[trigger] state.work.contains_key(id) implies (
    shown.active_work.contains(state.work[id]) <==> state.work[id].scope == scope) by {
        if state.work[id].scope == scope {
            assert(q(state.work[id]));
            let k = wk.index_of(id);
            assert(shown.active_work[k] == state.work[id]);
        }
        if shown.active_work.contains(state.work[id]) {
            let k = shown.active_work.index_of(state.work[id]);
            assert(q(shown.active_work[k]));
        }
    }
}

/// A snapshot shows the signals of its scope in the order of the log: each is the published signal
/// of its place, and every place of the scope has its signal.
pub proof fn snapshots_show_signals_in_order(state: StateView, scope: Seq<char>) -> (places: Seq<
    int,
>)
    ensures
        ({
            let shown = state.snapshot(scope).signals;
            &&& places.len() == shown.len()
            &&& forall|i: int, j: int|
                0 <= i < j < places.len() ==> #[trigger] places[i] < #[trigger] places[j]
            &&& forall|i: int|
                0 <= i < places.len() ==> 0 <= #[trigger] places[i] < state.signals.len()
                    && state.signals[places[i]].scope == scope && shown[i]
                    == state.signals[places[i]].published
            &&& forall|at: int|
                0 <= at < state.signals.len() && (#[trigger] state.signals[at]).scope == scope
                    ==> places.contains(at)
        }),
{
    lemma_signal_places(state.signals, scope)
}

proof fn lemma_signal_places(signals: Seq<StoredSignalView>, scope: Seq<char>) -> (places: Seq<int>)
    ensures
        ({
            let shown = signals.filter_map(model::signal_in(scope));
            &&& places.len() == shown.len()
            &&& forall|i: int, j: int|
                0 <= i < j < places.len() ==> #[trigger] places[i] < #[trigger] places[j]
            &&& forall|i: int|
                0 <= i < places.len() ==> 0 <= #[trigger] places[i] < signals.len()
                    && signals[places[i]].scope == scope && shown[i]
                    == signals[places[i]].published
            &&& forall|at: int|
                0 <= at < signals.len() && (#[trigger] signals[at]).scope == scope
                    ==> places.contains(at)
        }),
    decreases signals.len(),
{
    if signals.len() == 0 {
        Seq::empty()
    } else {
        let init = signals.drop_last();
        let n = signals.len() - 1;
        let before = lemma_signal_places(init, scope);
        let f = model::signal_in(scope);
        assert(signals.last() == signals[n]);
        let places = if signals[n].scope == scope {
            before.push(n)
        } else {
            before
        };
        assert forall|i: int| 0 <= i < places.len() implies 0 <= #[trigger] places[i]
            < signals.len() && signals[places[i]].scope == scope && signals.filter_map(f)[i]
            == signals[places[i]].published by {
            if i < before.len() {
                assert(places[i] == before[i]);
                assert(signals[before[i]] == init[before[i]]);
                assert(signals.filter_map(f)[i] == init.filter_map(f)[i]);
            }
        }
        assert forall|i: int, j: int| 0 <= i < j < places.len() implies #[trigger] places[i]
            < #[trigger] places[j] by {
            assert(places[i] == before[i]);
            if j < before.len() {
                assert(places[j] == before[j]);
            }
        }
        assert forall|at: int|
            0 <= at < signals.len() && (#[trigger] signals[at]).scope == scope implies places.contains(
            at,
        ) by {
            if at < n {
                assert(init[at] == signals[at]);
                let k = before.index_of(at);
                assert(places[k] == at);
            } else {
                assert(places[places.len() - 1] == at);
            }
        }
        places
    }
}

/// Whether one item is more pressing than another: questions come before blocks, blocks before calls
/// for help, these before calls for review; then the older one, then by scope and by event.
pub open spec fn is_more_pressing(a: AttentionItemView, b: AttentionItemView) -> bool {
    let place = |category: AttentionCategory|
        match category {
            AttentionCategory::Decision => 1int,
            AttentionCategory::Blocked => 2,
            AttentionCategory::Help => 3,
            AttentionCategory::ReadyForReview => 4,
        };
    let older = a.created_at.seconds < b.created_at.seconds || (a.created_at.seconds
        == b.created_at.seconds && a.created_at.nanos < b.created_at.nanos);
    ||| place(a.category) < place(b.category)
    ||| place(a.category) == place(b.category) && older
    ||| place(a.category) == place(b.category) && a.created_at == b.created_at && text::text_before(
        a.source_scope,
        b.source_scope,
    )
    ||| place(a.category) == place(b.category) && a.created_at == b.created_at && a.source_scope
        == b.source_scope && a.source_event_id < b.source_event_id
}

proof fn lemma_flat_map_distinct<A, B>(s: Seq<A>, f: spec_fn(A) -> Seq<B>)
    requires
        s.no_duplicates(),
        forall|i: int| 0 <= i < s.len() ==> (#[trigger] f(s[i])).no_duplicates(),
        forall|i: int, j: int, b: B|
            0 <= i < s.len() && 0 <= j < s.len() && #[trigger] f(s[i]).contains(b)
                && #[trigger] f(s[j]).contains(b) ==> i == j,
    ensures
        s.flat_map(f).no_duplicates(),
    decreases s.len(),
{
    if s.len() == 0 {
        assert(s.flat_map(f).len() == 0);
    } else {
        let n = s.len() - 1;
        let rest = s.drop_last();
        assert(s.take(n) == rest);
        assert(s.take(n + 1) == s);
        s.lemma_flat_map_take_append(f, n);
        assert forall|i: int| 0 <= i < rest.len() implies (
        #[trigger] f(rest[i])).no_duplicates() by {
            assert(rest[i] == s[i]);
        }
        assert forall|i: int, j: int, b: B|
            0 <= i < rest.len() && 0 <= j < rest.len() && #[trigger] f(rest[i]).contains(b)
                && #[trigger] f(rest[j]).contains(b) implies i == j by {
            assert(rest[i] == s[i] && rest[j] == s[j]);
        }
        lemma_flat_map_distinct(rest, f);
        let left = rest.flat_map(f);
        let right = f(s[n]);
        let whole = s.flat_map(f);
        assert(whole == left + right);
        assert(right.no_duplicates());
        assert forall|i: int, j: int| 0 <= i < j < whole.len() implies #[trigger] whole[i]
            != #[trigger] whole[j] by {
            if j < left.len() {
                assert(whole[i] == left[i] && whole[j] == left[j]);
            } else if i >= left.len() {
                assert(whole[i] == right[i - left.len()] && whole[j] == right[j - left.len()]);
            } else if whole[i] == whole[j] {
                let b = whole[i];
                assert(left.contains(left[i]));
                assert(right.contains(right[j - left.len()]));
                sequences::lemma_flat_map_contains(rest, f, b);
                let k = choose|k: int| 0 <= k < rest.len() && f(#[trigger] rest[k]).contains(b);
                assert(f(s[k]).contains(b) && f(s[n]).contains(b));
            }
        }
    }
}

/// All that needs attention is listed once, the most pressing first, across all scopes.
pub proof fn attention_lists_each_request_once(state: StateView)
    requires
        soundness::sound(state),
    ensures
        ({
            let list = state.attention();
            &&& forall|i: int, j: int|
                0 <= i < j < list.len() ==> !is_more_pressing(
                    #[trigger] list[j],
                    #[trigger] list[i],
                )
            &&& forall|i: int, j: int|
                0 <= i < j < list.len() ==> (#[trigger] list[i]).request_id != (
                #[trigger] list[j]).request_id
            &&& forall|scope: Seq<char>, item: AttentionItemView| #[trigger]
                state.attention_for_scope(scope).contains(item) ==> list.contains(item)
            &&& forall|i: int|
                0 <= i < list.len() ==> state.attention_for_scope(
                    (#[trigger] list[i]).source_scope,
                ).contains(list[i])
        }),
{
    let list = state.attention();
    let known = ordered::listing::<String>(state.scopes);
    let f = state.items_by_scope();
    let all = known.flat_map(f);
    ordered::lemma_listing_of_finite::<String>(state.scopes);
    assert(known.no_duplicates()) by {
        assert forall|i: int, j: int| 0 <= i < j < known.len() implies known[i] != known[j] by {
            assert(<String as ordered::Key>::before(known[i], known[j]));
            <String as ordered::Key>::irreflexive(known[i]);
        }
    }
    assert forall|i: int| 0 <= i < known.len() implies (#[trigger] f(known[i])).no_duplicates() by {
        attention::open_items_are_distinct(state, known[i]);
        let items = state.attention_for_scope(known[i]);
        assert forall|a: int, b: int| 0 <= a < b < items.len() implies items[a] != items[b] by {
            assert(items[a].request_id != items[b].request_id);
        }
    }
    assert forall|i: int, j: int, b: AttentionItemView|
        0 <= i < known.len() && 0 <= j < known.len() && #[trigger] f(known[i]).contains(b)
            && #[trigger] f(known[j]).contains(b) implies i == j by {
        attention::items_are_open_requests(state, known[i], b);
        attention::items_are_open_requests(state, known[j], b);
    }
    lemma_flat_map_distinct(known, f);
    sequences::ranking_arranges::<AttentionItem>(all, arbitrary());
    all.lemma_multiset_has_no_duplicates();
    list.lemma_multiset_has_no_duplicates_conv();
    assert forall|i: int, j: int| 0 <= i < j < list.len() implies !is_more_pressing(
        #[trigger] list[j],
        #[trigger] list[i],
    ) by {
        assert(!<AttentionItem as sequences::Ranked>::ahead(list[j], list[i]));
        text::lemma_text_irreflexive(list[i].source_scope);
    }
    assert forall|i: int| 0 <= i < list.len() implies state.attention_for_scope(
        (#[trigger] list[i]).source_scope,
    ).contains(list[i]) by {
        let item = list[i];
        assert(list.contains(item));
        attention::attention_is_complete_and_ranked(state, item);
        let scope = choose|scope: Seq<char>|
            state.scopes.contains(scope) && #[trigger] state.attention_for_scope(scope).contains(
                item,
            );
        attention::items_are_open_requests(state, scope, item);
    }
    assert forall|scope: Seq<char>, item: AttentionItemView| #[trigger]
        state.attention_for_scope(scope).contains(item) implies list.contains(item) by {
        attention::items_are_open_requests(state, scope, item);
        let at = choose|at: int|
            0 <= at < state.signals.len() && state.attention_item(
                scope,
                #[trigger] state.signals[at],
            ) == Some(item);
        assert(state.scopes.contains(state.signals[at].scope));
        attention::attention_is_complete_and_ranked(state, item);
    }
    assert forall|i: int, j: int| 0 <= i < j < list.len() implies (#[trigger] list[i]).request_id
        != (#[trigger] list[j]).request_id by {
        let a = list[i];
        let b = list[j];
        assert(a != b);
        attention::items_are_open_requests(state, a.source_scope, a);
        attention::items_are_open_requests(state, b.source_scope, b);
        let m = choose|at: int|
            0 <= at < state.signals.len() && state.attention_item(
                a.source_scope,
                #[trigger] state.signals[at],
            ) == Some(a);
        let n = choose|at: int|
            0 <= at < state.signals.len() && state.attention_item(
                b.source_scope,
                #[trigger] state.signals[at],
            ) == Some(b);
        if a.request_id == b.request_id {
            if m < n {
                assert(!state.signals[n].makes(state.signals[m].identity()->0.request_id));
            } else if n < m {
                assert(!state.signals[m].makes(state.signals[n].identity()->0.request_id));
            }
        }
    }
}

/// Whoever is present sees each direction that was delivered to it and that it has not consumed, in
/// the order of the directions, and no other; whoever is not, sees none.
pub proof fn received_directions_are_listed(state: StateView, participant_id: ParticipantId)
    requires
        state.well_formed(),
    ensures
        ({
            let list = state.directions_for(participant_id);
            &&& !state.participants.contains_key(participant_id) ==> list.len() == 0
            &&& forall|i: int|
                0 <= i < list.len() ==> state.directions.contains_key((#[trigger] list[i]).id)
                    && state.directions[list[i].id] == list[i]
            &&& forall|i: int, j: int|
                0 <= i < j < list.len() ==> (#[trigger] list[i]).id.0 < (#[trigger] list[j]).id.0
            &&& state.participants.contains_key(participant_id) ==> forall|id: DirectionId| #[trigger]
                state.directions.contains_key(id) ==> (list.contains(state.directions[id])
                    <==> exists|k: int|
                    0 <= k < state.directions[id].deliveries.len() && (
                    #[trigger] state.directions[id].deliveries[k]).participant_id == participant_id
                        && state.directions[id].deliveries[k].consumed_at is None)
        }),
{
    if state.participants.contains_key(participant_id) {
        let p = model::pending_for(participant_id);
        let list = state.directions_for(participant_id);
        let keys = lemma_listed::<DirectionId, DirectionView>(state.directions, p);
        assert forall|i: int, j: int| 0 <= i < j < list.len() implies (#[trigger] list[i]).id.0 < (
        #[trigger] list[j]).id.0 by {
            assert(<DirectionId as ordered::Key>::before(keys[i], keys[j]));
        }
        assert forall|id: DirectionId| #[trigger] state.directions.contains_key(id) implies (
        list.contains(state.directions[id]) <==> exists|k: int|
            0 <= k < state.directions[id].deliveries.len() && (
            #[trigger] state.directions[id].deliveries[k]).participant_id == participant_id
                && state.directions[id].deliveries[k].consumed_at is None) by {
            if model::is_pending(state.directions[id], participant_id) {
                assert(p(state.directions[id]));
                let k = keys.index_of(id);
                assert(list[k] == state.directions[id]);
            }
            if list.contains(state.directions[id]) {
                let k = list.index_of(state.directions[id]);
                assert(p(list[k]));
            }
        }
    }
}

/// Whether anyone is present or any work is claimed in a scope.
pub open spec fn is_busy(state: StateView, scope: Seq<char>) -> bool {
    ||| exists|id: ParticipantId| #[trigger]
        state.participants.contains_key(id) && state.participants[id].scope == scope
    ||| exists|id: WorkId| #[trigger] state.work.contains_key(id) && state.work[id].scope == scope
}

/// Whether the last signal of a scope says that work is done.
pub open spec fn ended_with_done(state: StateView, scope: Seq<char>) -> bool {
    exists|at: int|
        0 <= at < state.signals.len() && (#[trigger] state.signals[at]).scope == scope
            && state.signals[at].published.signal is Done && forall|later: int|
            at < later < state.signals.len() ==> (#[trigger] state.signals[later]).scope != scope
}

proof fn lemma_lifecycle(state: StateView, scope: Seq<char>)
    requires
        state.well_formed(),
    ensures
        ({
            let lifecycle = state.summary(scope).lifecycle;
            &&& lifecycle is Active <==> is_busy(state, scope)
            &&& lifecycle is Completed <==> !is_busy(state, scope) && ended_with_done(state, scope)
        }),
{
    let shown = state.snapshot(scope);
    snapshots_show_their_scope(state, scope);
    let places = snapshots_show_signals_in_order(state, scope);
    if shown.participants.len() > 0 {
        let first = shown.participants[0];
        assert(state.participants.contains_key(first.id));
        assert(shown.participants.contains(first));
    }
    if shown.active_work.len() > 0 {
        let first = shown.active_work[0];
        assert(state.work.contains_key(first.id));
        assert(shown.active_work.contains(first));
    }
    if is_busy(state, scope) {
        if exists|id: ParticipantId| #[trigger]
            state.participants.contains_key(id) && state.participants[id].scope == scope {
            let id = choose|id: ParticipantId| #[trigger]
                state.participants.contains_key(id) && state.participants[id].scope == scope;
            assert(shown.participants.contains(state.participants[id]));
        } else {
            let id = choose|id: WorkId| #[trigger]
                state.work.contains_key(id) && state.work[id].scope == scope;
            assert(shown.active_work.contains(state.work[id]));
        }
    }
    let n = places.len() - 1;
    if ended_with_done(state, scope) {
        let at = choose|at: int|
            0 <= at < state.signals.len() && (#[trigger] state.signals[at]).scope == scope
                && state.signals[at].published.signal is Done && forall|later: int|
                at < later < state.signals.len() ==> (#[trigger] state.signals[later]).scope
                    != scope;
        let k = places.index_of(at);
        if k < n {
            assert(places[k] < places[n]);
            assert(state.signals[places[n]].scope != scope);
        }
        assert(shown.signals[n] == state.signals[places[n]].published);
    }
    if shown.signals.len() > 0 && shown.signals.last().signal is Done {
        let at = places[n];
        assert(shown.signals[n] == state.signals[at].published);
        assert forall|later: int| at < later < state.signals.len() implies (
        #[trigger] state.signals[later]).scope != scope by {
            if state.signals[later].scope == scope {
                let k = places.index_of(later);
                if k < n {
                    assert(places[k] < places[n]);
                }
            }
        }
        assert(ended_with_done(state, scope));
    }
}

/// Every known scope is listed once, with the title of its workspace, with how many are present and
/// how much is claimed, with its last sequence, and as active while anyone or any work is there,
/// else as completed where its last signal says done, else as idle. The latest activity comes
/// first.
pub proof fn workspaces_are_listed_as_they_are(state: StateView)
    requires
        state.well_formed(),
    ensures
        ({
            let list = state.workspace_summaries();
            &&& forall|scope: Seq<char>| #[trigger]
                state.scopes.contains(scope) ==> exists|i: int|
                    0 <= i < list.len() && (#[trigger] list[i]).scope == scope
            &&& forall|i: int, j: int|
                0 <= i < j < list.len() ==> (#[trigger] list[i]).scope != (#[trigger] list[j]).scope
            &&& forall|i: int|
                0 <= i < list.len() ==> {
                    let summary = #[trigger] list[i];
                    let scope = summary.scope;
                    &&& state.scopes.contains(scope)
                    &&& summary.title == if state.workspaces.contains_key(scope) {
                        Some(state.workspaces[scope].title)
                    } else {
                        None
                    }
                    &&& summary.active_participants == state.snapshot(
                        scope,
                    ).participants.len() as usize
                    &&& summary.active_work == state.snapshot(scope).active_work.len() as usize
                    &&& summary.last_sequence == if state.scope_sequences.contains_key(scope) {
                        state.scope_sequences[scope]
                    } else {
                        0
                    }
                    &&& summary.lifecycle is Active <==> is_busy(state, scope)
                    &&& summary.lifecycle is Completed <==> !is_busy(state, scope)
                        && ended_with_done(state, scope)
                    &&& summary.lifecycle is Idle <==> !is_busy(state, scope) && !ended_with_done(
                        state,
                        scope,
                    )
                }
            &&& forall|i: int, j: int|
                0 <= i < j < list.len() ==> {
                    let first = (#[trigger] list[i]).scope;
                    let second = (#[trigger] list[j]).scope;
                    if state.activity.contains_key(first) && state.activity.contains_key(second) {
                        state.activity[first] > state.activity[second] || (state.activity[first]
                            == state.activity[second] && text::text_before(first, second))
                    } else if state.activity.contains_key(first) {
                        true
                    } else {
                        !state.activity.contains_key(second) && text::text_before(first, second)
                    }
                }
        }),
{
    let known = ordered::listing::<String>(state.scopes);
    let f = state.active_summary();
    let all = known.map_values(f);
    let entries = sequences::ranked::<(Option<u64>, WorkspaceSummary)>(all);
    let list = state.workspace_summaries();
    ordered::lemma_listing_of_finite::<String>(state.scopes);
    sequences::ranking_arranges::<(Option<u64>, WorkspaceSummary)>(all, arbitrary());
    vstd::seq_lib::to_multiset_len(all);
    vstd::seq_lib::to_multiset_len(entries);
    assert(all.no_duplicates()) by {
        assert forall|i: int, j: int| 0 <= i < j < all.len() implies all[i] != all[j] by {
            assert(<String as ordered::Key>::before(known[i], known[j]));
            <String as ordered::Key>::irreflexive(known[i]);
            assert(all[i].1.scope == known[i] && all[j].1.scope == known[j]);
        }
    }
    all.lemma_multiset_has_no_duplicates();
    entries.lemma_multiset_has_no_duplicates_conv();
    assert forall|i: int| 0 <= i < entries.len() implies state.scopes.contains(
        (#[trigger] entries[i]).1.scope,
    ) && entries[i] == f(entries[i].1.scope) by {
        vstd::seq_lib::to_multiset_contains(all, entries[i]);
        vstd::seq_lib::to_multiset_contains(entries, entries[i]);
        assert(entries.contains(entries[i]));
        let k = all.index_of(entries[i]);
        assert(all[k] == f(known[k]));
        assert(known.to_set().contains(known[k]));
    }
    assert forall|i: int| 0 <= i < list.len() implies #[trigger] list[i] == entries[i].1 by {}
    assert forall|scope: Seq<char>| #[trigger] state.scopes.contains(scope) implies exists|i: int|
        0 <= i < list.len() && (#[trigger] list[i]).scope == scope by {
        assert(known.to_set().contains(scope));
        let k = known.index_of(scope);
        assert(all[k] == f(scope));
        assert(all.contains(f(scope)));
        vstd::seq_lib::to_multiset_contains(all, f(scope));
        vstd::seq_lib::to_multiset_contains(entries, f(scope));
        let i = entries.index_of(f(scope));
        assert(list[i].scope == scope);
    }
    assert forall|i: int, j: int| 0 <= i < j < list.len() implies (#[trigger] list[i]).scope != (
    #[trigger] list[j]).scope by {
        assert(entries[i] != entries[j]);
        assert(entries[i] == f(entries[i].1.scope) && entries[j] == f(entries[j].1.scope));
    }
    assert forall|i: int| 0 <= i < list.len() implies {
        let summary = #[trigger] list[i];
        let scope = summary.scope;
        &&& summary.lifecycle is Active <==> is_busy(state, scope)
        &&& summary.lifecycle is Completed <==> !is_busy(state, scope) && ended_with_done(
            state,
            scope,
        )
    } by {
        assert(entries[i] == f(entries[i].1.scope));
        lemma_lifecycle(state, list[i].scope);
    }
    assert forall|i: int, j: int| 0 <= i < j < list.len() implies {
        let first = (#[trigger] list[i]).scope;
        let second = (#[trigger] list[j]).scope;
        if state.activity.contains_key(first) && state.activity.contains_key(second) {
            state.activity[first] > state.activity[second] || (state.activity[first]
                == state.activity[second] && text::text_before(first, second))
        } else if state.activity.contains_key(first) {
            true
        } else {
            !state.activity.contains_key(second) && text::text_before(first, second)
        }
    } by {
        assert(!<(Option<u64>, WorkspaceSummary) as sequences::Ranked>::ahead(
            entries[j],
            entries[i],
        ));
        assert(entries[i] == f(entries[i].1.scope) && entries[j] == f(entries[j].1.scope));
        text::lemma_text_total(list[i].scope, list[j].scope);
    }
}

/// A scope that everyone has left and where no work is claimed is completed where the last that was
/// said there is that work is done, and idle where anything else was said since; events that say
/// nothing there do not change that.
pub proof fn lifecycles_follow_the_last_signal(
    state: StateView,
    said: EventEnvelopeView,
    since: Seq<EventEnvelopeView>,
    scope: Seq<char>,
)
    requires
        state.well_formed(),
        said.scope == scope,
        said.event is SignalPublished,
        forall|i: int|
            0 <= i < since.len() ==> !((#[trigger] since[i]).scope == scope
                && since[i].event is SignalPublished),
    ensures
        ({
            let after = state.applied(said).replayed(since);
            let summaries = after.workspace_summaries();
            &&& exists|i: int|
                0 <= i < summaries.len() && (#[trigger] summaries[i]).scope == scope
            &&& forall|i: int|
                0 <= i < summaries.len() && (#[trigger] summaries[i]).scope == scope
                    ==> summaries[i].lifecycle == if is_busy(after, scope) {
                    WorkspaceLifecycle::Active
                } else if said.event->SignalPublished_published.signal is Done {
                    WorkspaceLifecycle::Completed
                } else {
                    WorkspaceLifecycle::Idle
                }
        }),
{
    let start = state.applied(said);
    let after = start.replayed(since);
    let at = state.signals.len() as int;
    crate::laws::replay::events_keep_form(state, said);
    crate::laws::replay::replay_keeps_form(start, since);
    lemma_said_stays(start, since, scope, at);
    workspaces_are_listed_as_they_are(after);
    assert(after.scopes.contains(scope));
    if ended_with_done(after, scope) {
        let last = choose|k: int|
            0 <= k < after.signals.len() && (#[trigger] after.signals[k]).scope == scope
                && after.signals[k].published.signal is Done && forall|later: int|
                k < later < after.signals.len() ==> (#[trigger] after.signals[later]).scope
                    != scope;
        if last < at {
            assert(after.signals[at].scope != scope);
        } else if at < last {
            assert(after.signals[last].scope != scope);
        }
    } else if said.event->SignalPublished_published.signal is Done {
        assert(after.signals[at].scope == scope);
        assert(ended_with_done(after, scope));
    }
}

proof fn lemma_said_stays(
    start: StateView,
    since: Seq<EventEnvelopeView>,
    scope: Seq<char>,
    at: int,
)
    requires
        0 <= at < start.signals.len(),
        start.scopes.contains(scope),
        forall|later: int|
            at < later < start.signals.len() ==> (#[trigger] start.signals[later]).scope != scope,
        forall|i: int|
            0 <= i < since.len() ==> !((#[trigger] since[i]).scope == scope
                && since[i].event is SignalPublished),
    ensures
        at < start.replayed(since).signals.len(),
        start.replayed(since).signals[at] == start.signals[at],
        start.replayed(since).scopes.contains(scope),
        forall|later: int|
            at < later < start.replayed(since).signals.len() ==> (#[trigger] start.replayed(
                since,
            ).signals[later]).scope != scope,
    decreases since.len(),
{
    if since.len() > 0 {
        let init = since.drop_last();
        assert forall|i: int| 0 <= i < init.len() implies !((#[trigger] init[i]).scope == scope
            && init[i].event is SignalPublished) by {
            assert(init[i] == since[i]);
        }
        lemma_said_stays(start, init, scope, at);
        let before = start.replayed(init);
        let last = since[since.len() - 1];
        let after = before.applied(last);
        assert forall|later: int| at < later < after.signals.len() implies (
        #[trigger] after.signals[later]).scope != scope by {
            if later < before.signals.len() {
                assert(after.signals[later] == before.signals[later]);
            }
        }
        assert(after.signals[at] == before.signals[at]);
    }
}

} // verus!
