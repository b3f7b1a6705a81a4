//! Workspaces are defined once, refreshed forward in time, and listed by activity.
use vstd::prelude::*;

use crate::coordination::{DecisionContext, DecisionView};
use crate::laws::replay;
use crate::model;
use crate::model::StateView;
use crate::ordered;
use crate::protocol::{
    CommandView, EventEnvelopeView, EventKindView, WorkspaceSummary, WorkspaceSummaryView,
    WorkspaceView,
};
use crate::sequences;

verus! {

/// A defined workspace is known as it was given. Defining it again changes nothing, and defining
/// another in its scope is rejected.
pub proof fn workspaces_are_defined_once(
    state: StateView,
    workspace: WorkspaceView,
    other: WorkspaceView,
    context: DecisionContext,
    envelopes: Seq<EventEnvelopeView>,
)
    requires
        state.decided(CommandView::DefineWorkspace { workspace }, context) is Accepted,
        model::carries(
            envelopes,
            state.decided(CommandView::DefineWorkspace { workspace }, context).events(),
        ),
    ensures
        state.replayed(envelopes).workspaces.contains_key(workspace.scope),
        state.replayed(envelopes).workspaces[workspace.scope] == workspace,
        state.replayed(envelopes).decided(CommandView::DefineWorkspace { workspace }, context)
            == model::unchanged(None),
        other.scope == workspace.scope && other != workspace && model::workspace_fault(other) is None
            ==> state.replayed(envelopes).decided(
            CommandView::DefineWorkspace { workspace: other },
            context,
        ) == DecisionView::Rejected("workspace is already defined with different metadata"@),
        other.scope == workspace.scope && other != workspace ==> state.replayed(envelopes).decided(
            CommandView::DefineWorkspace { workspace: other },
            context,
        ) is Rejected,
{
    if envelopes.len() == 1 {
        replay::replay_of_one(state, envelopes);
    }
}

/// A fit workspace is defined by one event where its scope has none yet, is taken as it is where it
/// is known already, and is refused where the scope has another.
pub proof fn definitions_are_decided_by_scope(
    state: StateView,
    workspace: WorkspaceView,
    context: DecisionContext,
)
    requires
        model::workspace_fault(workspace) is None,
    ensures
        state.decided(CommandView::DefineWorkspace { workspace }, context)
            == if !state.workspaces.contains_key(workspace.scope) {
            model::accepted(
                workspace.scope,
                EventKindView::WorkspaceDefined { workspace },
                None,
                None,
            )
        } else if state.workspaces[workspace.scope] == workspace {
            model::unchanged(None)
        } else {
            DecisionView::Rejected("workspace is already defined with different metadata"@)
        },
{
}

/// A refresh that was accepted keeps the identity of the workspace, is not older than what was
/// known, and is known as it was given. Refreshing again changes nothing.
pub proof fn refreshes_go_forward(
    state: StateView,
    workspace: WorkspaceView,
    context: DecisionContext,
    envelopes: Seq<EventEnvelopeView>,
)
    requires
        state.decided(CommandView::RefreshWorkspaceMetadata { workspace }, context) is Accepted,
        model::carries(
            envelopes,
            state.decided(CommandView::RefreshWorkspaceMetadata { workspace }, context).events(),
        ),
    ensures
        state.workspaces.contains_key(workspace.scope),
        workspace.linear_issue.identifier
            == state.workspaces[workspace.scope].linear_issue.identifier,
        workspace.repository == state.workspaces[workspace.scope].repository,
        workspace.linear_issue.metadata is Some,
        state.workspaces[workspace.scope].linear_issue.metadata is Some
            ==> !workspace.linear_issue.metadata->0.updated_at.before(
            state.workspaces[workspace.scope].linear_issue.metadata->0.updated_at,
        ),
        state.replayed(envelopes).workspaces == state.workspaces.insert(workspace.scope, workspace),
        state.replayed(envelopes).decided(
            CommandView::RefreshWorkspaceMetadata { workspace },
            context,
        ) == model::unchanged(None),
{
    if envelopes.len() == 1 {
        replay::replay_of_one(state, envelopes);
    } else {
        assert(state.workspaces.insert(workspace.scope, workspace) =~= state.workspaces);
    }
}

/// Workspaces are listed by their last activity, the latest first, then by scope, each known scope
/// once.
pub proof fn workspaces_are_ranked(state: StateView)
    requires
        state.well_formed(),
    ensures
        state.workspace_summaries().len() == ordered::listing::<String>(state.scopes).len(),
        exists|entries: Seq<(Option<u64>, WorkspaceSummaryView)>|
            #![trigger sequences::in_rank_order::<(Option<u64>, WorkspaceSummary)>(entries)]
            {
                &&& sequences::in_rank_order::<(Option<u64>, WorkspaceSummary)>(entries)
                &&& entries.to_multiset() == ordered::listing::<String>(
                    state.scopes,
                ).map_values(state.active_summary()).to_multiset()
                &&& state.workspace_summaries() == entries.map_values(
                    |entry: (Option<u64>, WorkspaceSummaryView)| entry.1,
                )
            },
{
    let all = ordered::listing::<String>(state.scopes).map_values(state.active_summary());
    let entries = sequences::ranked::<(Option<u64>, WorkspaceSummary)>(all);
    sequences::ranking_arranges::<(Option<u64>, WorkspaceSummary)>(all, all[0]);
    vstd::seq_lib::to_multiset_len(all);
    vstd::seq_lib::to_multiset_len(entries);
}

/// Whether two lists have the same activities and scopes at the same places.
spec fn alike(
    a: Seq<(Option<u64>, WorkspaceSummaryView)>,
    b: Seq<(Option<u64>, WorkspaceSummaryView)>,
) -> bool {
    &&& a.len() == b.len()
    &&& forall|i: int|
        0 <= i < a.len() ==> (#[trigger] a[i]).0 == b[i].0 && a[i].1.scope == b[i].1.scope
}

proof fn lemma_placed_alike(
    a: Seq<(Option<u64>, WorkspaceSummaryView)>,
    b: Seq<(Option<u64>, WorkspaceSummaryView)>,
    x: (Option<u64>, WorkspaceSummaryView),
    y: (Option<u64>, WorkspaceSummaryView),
)
    requires
        alike(a, b),
        x.0 == y.0,
        x.1.scope == y.1.scope,
    ensures
        alike(
            sequences::placed::<(Option<u64>, WorkspaceSummary)>(a, x),
            sequences::placed::<(Option<u64>, WorkspaceSummary)>(b, y),
        ),
    decreases a.len(),
{
    if a.len() > 0 {
        assert(a[a.len() - 1].0 == b[a.len() - 1].0);
        let c = a.drop_last();
        let d = b.drop_last();
        assert forall|i: int| 0 <= i < c.len() implies (#[trigger] c[i]).0 == d[i].0
            && c[i].1.scope == d[i].1.scope by {
            assert(c[i] == a[i]);
        }
        lemma_placed_alike(c, d, x, y);
    }
}

proof fn lemma_ranked_alike(
    a: Seq<(Option<u64>, WorkspaceSummaryView)>,
    b: Seq<(Option<u64>, WorkspaceSummaryView)>,
)
    requires
        alike(a, b),
    ensures
        alike(
            sequences::ranked::<(Option<u64>, WorkspaceSummary)>(a),
            sequences::ranked::<(Option<u64>, WorkspaceSummary)>(b),
        ),
    decreases a.len(),
{
    if a.len() > 0 {
        assert(a[a.len() - 1].0 == b[a.len() - 1].0);
        let c = a.drop_last();
        let d = b.drop_last();
        assert forall|i: int| 0 <= i < c.len() implies (#[trigger] c[i]).0 == d[i].0
            && c[i].1.scope == d[i].1.scope by {
            assert(c[i] == a[i]);
        }
        lemma_ranked_alike(c, d);
        lemma_placed_alike(
            sequences::ranked::<(Option<u64>, WorkspaceSummary)>(c),
            sequences::ranked::<(Option<u64>, WorkspaceSummary)>(d),
            a.last(),
            b.last(),
        );
    }
}

/// Renewals of presence in a known scope leave the order of the workspaces as it is.
pub proof fn renewals_keep_the_order(state: StateView, envelope: EventEnvelopeView)
    requires
        envelope.event is PresenceRenewed,
        state.scopes.contains(envelope.scope),
    ensures
        state.applied(envelope).workspace_summaries().len() == state.workspace_summaries().len(),
        forall|i: int|
            0 <= i < state.workspace_summaries().len() ==> (#[trigger] state.applied(
                envelope,
            ).workspace_summaries()[i]).scope == state.workspace_summaries()[i].scope,
{
    let after = state.applied(envelope);
    assert(after.scopes =~= state.scopes);
    let scopes = ordered::listing::<String>(state.scopes);
    lemma_ranked_alike(
        scopes.map_values(after.active_summary()),
        scopes.map_values(state.active_summary()),
    );
    let a = sequences::ranked::<(Option<u64>, WorkspaceSummary)>(
        scopes.map_values(after.active_summary()),
    );
    let b = sequences::ranked::<(Option<u64>, WorkspaceSummary)>(
        scopes.map_values(state.active_summary()),
    );
    assert forall|i: int| 0 <= i < state.workspace_summaries().len() implies (
    #[trigger] after.workspace_summaries()[i]).scope == state.workspace_summaries()[i].scope by {
        assert(a[i].1.scope == b[i].1.scope);
    }
}

} // verus!
