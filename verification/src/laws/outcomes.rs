//! Outcomes: when each command is accepted, why it is refused, and what it then changes.
use vstd::prelude::*;

use crate::coordination::{DecisionContext, DecisionView, PendingEventView};
use crate::laws::replay;
use crate::model;
use crate::model::{StateView, StoredSignalView};
use crate::ordered;
use crate::protocol::{
    CommandView, ConflictView, DirectionId, DirectionTarget, DirectionView, EnvironmentManifestView,
    EventEnvelopeView, EventKindView, ParticipantId, PublishedSignalView, ReleaseReason, RequestId,
    SignalView, WorkClaimView, WorkId, WorkspaceView,
};
use crate::resources;
use crate::text;
use crate::time::Timestamp;

verus! {

/// Whether a participant is present and its lease ends after a time.
pub open spec fn is_there(state: StateView, id: ParticipantId, now: Timestamp) -> bool {
    &&& state.participants.contains_key(id)
    &&& {
        let end = state.participants[id].expires_at;
        now.seconds < end.seconds || (now.seconds == end.seconds && now.nanos < end.nanos)
    }
}

/// Whether a workspace has all that it needs: a scope that is made of its issue's identifier, a
/// title, an objective, and a name for its repository where it has one.
pub open spec fn is_complete(workspace: WorkspaceView) -> bool {
    &&& !text::is_blank(workspace.scope)
    &&& !text::is_blank(workspace.title)
    &&& !text::is_blank(workspace.objective)
    &&& !text::is_blank(workspace.linear_issue.identifier)
    &&& workspace.scope == seq!['l', 'i', 'n', 'e', 'a', 'r', ':'] + workspace.linear_issue.identifier
    &&& workspace.repository is Some ==> !text::is_blank(workspace.repository->0.repository)
}

proof fn lemma_workspace_reasons()
    ensures
        "scope"@ + " must not be empty"@ == "scope must not be empty"@,
        "title"@ + " must not be empty"@ == "title must not be empty"@,
        "objective"@ + " must not be empty"@ == "objective must not be empty"@,
        "Linear issue identifier"@ + " must not be empty"@
            == "Linear issue identifier must not be empty"@,
        "repository"@ + " must not be empty"@ == "repository must not be empty"@,
        "Linear status"@ + " must not be empty"@ == "Linear status must not be empty"@,
        "linear:"@ == seq!['l', 'i', 'n', 'e', 'a', 'r', ':'],
{
    reveal_strlit(" must not be empty");
    reveal_strlit("scope");
    reveal_strlit("scope must not be empty");
    reveal_strlit("title");
    reveal_strlit("title must not be empty");
    reveal_strlit("objective");
    reveal_strlit("objective must not be empty");
    reveal_strlit("Linear issue identifier");
    reveal_strlit("Linear issue identifier must not be empty");
    reveal_strlit("repository");
    reveal_strlit("repository must not be empty");
    reveal_strlit("Linear status");
    reveal_strlit("Linear status must not be empty");
    reveal_strlit("linear:");
    assert("linear:"@ =~= seq!['l', 'i', 'n', 'e', 'a', 'r', ':']);
    assert("scope"@ + " must not be empty"@ =~= "scope must not be empty"@);
    assert("title"@ + " must not be empty"@ =~= "title must not be empty"@);
    assert("objective"@ + " must not be empty"@ =~= "objective must not be empty"@);
    assert("Linear issue identifier"@ + " must not be empty"@
        =~= "Linear issue identifier must not be empty"@);
    assert("repository"@ + " must not be empty"@ =~= "repository must not be empty"@);
    assert("Linear status"@ + " must not be empty"@ =~= "Linear status must not be empty"@);
}

/// A workspace is taken exactly where it is complete and its scope has no other; what is missing
/// first is the reason why it is not.
pub proof fn defining_takes_complete_workspaces(
    state: StateView,
    workspace: WorkspaceView,
    context: DecisionContext,
)
    ensures
        ({
            let known = state.workspaces.contains_key(workspace.scope);
            let decision = state.decided(CommandView::DefineWorkspace { workspace }, context);
            &&& decision is Accepted <==> is_complete(workspace) && (known
                ==> state.workspaces[workspace.scope] == workspace)
            &&& !(decision is Conflict)
            &&& decision is Accepted ==> decision->Accepted_participant_id is None
                && decision->Accepted_work_id is None
            &&& is_complete(workspace) && !(decision is Accepted) ==> decision
                == DecisionView::Rejected("workspace is already defined with different metadata"@)
            &&& text::is_blank(workspace.scope) ==> decision == DecisionView::Rejected(
                "scope must not be empty"@,
            )
            &&& !text::is_blank(workspace.scope) && text::is_blank(workspace.title) ==> decision
                == DecisionView::Rejected("title must not be empty"@)
            &&& !text::is_blank(workspace.scope) && !text::is_blank(workspace.title)
                && text::is_blank(workspace.objective) ==> decision == DecisionView::Rejected(
                "objective must not be empty"@,
            )
            &&& !text::is_blank(workspace.scope) && !text::is_blank(workspace.title)
                && !text::is_blank(workspace.objective) && text::is_blank(
                workspace.linear_issue.identifier,
            ) ==> decision == DecisionView::Rejected("Linear issue identifier must not be empty"@)
            &&& !text::is_blank(workspace.scope) && !text::is_blank(workspace.title)
                && !text::is_blank(workspace.objective) && !text::is_blank(
                workspace.linear_issue.identifier,
            ) && workspace.scope != seq!['l', 'i', 'n', 'e', 'a', 'r', ':']
                + workspace.linear_issue.identifier ==> decision == DecisionView::Rejected(
                "workspace scope must be linear:<issue identifier>"@,
            )
            &&& !text::is_blank(workspace.scope) && !text::is_blank(workspace.title)
                && !text::is_blank(workspace.objective) && !text::is_blank(
                workspace.linear_issue.identifier,
            ) && workspace.scope == seq!['l', 'i', 'n', 'e', 'a', 'r', ':']
                + workspace.linear_issue.identifier && !is_complete(workspace) ==> decision
                == DecisionView::Rejected("repository must not be empty"@)
            &&& !is_complete(workspace) ==> state.decided(
                CommandView::RefreshWorkspaceMetadata { workspace },
                context,
            ) == decision
        }),
{
    lemma_workspace_reasons();
}

/// Defining a workspace adds it to what is known and changes nothing else.
pub proof fn defining_adds_the_workspace(
    state: StateView,
    workspace: WorkspaceView,
    context: DecisionContext,
    envelopes: Seq<EventEnvelopeView>,
)
    requires
        state.decided(CommandView::DefineWorkspace { workspace }, context) is Accepted,
        model::carries(
            envelopes,
            state.decided(CommandView::DefineWorkspace { workspace }, context).events(),
        ),
    ensures
        ({
            let after = state.replayed(envelopes);
            &&& envelopes.len() == if state.workspaces.contains_key(workspace.scope) {
                0int
            } else {
                1
            }
            &&& forall|i: int|
                0 <= i < envelopes.len() ==> (#[trigger] envelopes[i]).scope == workspace.scope
                    && envelopes[i].event == (EventKindView::WorkspaceDefined { workspace })
            &&& after.workspaces == state.workspaces.insert(workspace.scope, workspace)
            &&& after.participants == state.participants
            &&& after.work == state.work
            &&& after.signals == state.signals
            &&& after.directions == state.directions
            &&& after.resolved_requests == state.resolved_requests
            &&& after.metrics == state.metrics
        }),
{
    if envelopes.len() == 1 {
        replay::replay_of_one(state, envelopes);
    } else {
        assert(state.workspaces.insert(workspace.scope, workspace) =~= state.workspaces);
    }
}

/// A refresh is taken exactly where the workspace is complete and known, keeps its issue and
/// repository, says a status, and is newer than what is known or the same.
pub proof fn refreshing_takes_newer_metadata(
    state: StateView,
    workspace: WorkspaceView,
    context: DecisionContext,
)
    ensures
        ({
            let known = state.workspaces[workspace.scope];
            let given = workspace.linear_issue.metadata;
            let cached = known.linear_issue.metadata;
            let decision = state.decided(CommandView::RefreshWorkspaceMetadata { workspace }, context);
            let older = cached is Some && given is Some && (given->0.updated_at.seconds
                < cached->0.updated_at.seconds || (given->0.updated_at.seconds
                == cached->0.updated_at.seconds && given->0.updated_at.nanos
                < cached->0.updated_at.nanos));
            let level = cached is Some && given is Some && given->0.updated_at
                == cached->0.updated_at;
            let same_identity = known.linear_issue.identifier == workspace.linear_issue.identifier
                && known.repository == workspace.repository;
            &&& decision is Accepted <==> {
                &&& is_complete(workspace)
                &&& state.workspaces.contains_key(workspace.scope)
                &&& same_identity
                &&& given is Some
                &&& !text::is_blank(given->0.status)
                &&& !older
                &&& level ==> known == workspace
            }
            &&& !(decision is Conflict)
            &&& decision is Accepted ==> {
                &&& decision->Accepted_participant_id is None
                &&& decision->Accepted_work_id is None
                &&& known == workspace ==> decision.events().len() == 0
                &&& known != workspace ==> decision.events() == seq![
                    PendingEventView {
                        scope: workspace.scope,
                        event: EventKindView::WorkspaceMetadataUpdated { workspace },
                    },
                ]
            }
            &&& is_complete(workspace) && !state.workspaces.contains_key(workspace.scope)
                ==> decision == DecisionView::Rejected(
                "workspace must be defined before metadata refresh"@,
            )
            &&& is_complete(workspace) && state.workspaces.contains_key(workspace.scope)
                && !same_identity ==> decision == DecisionView::Rejected(
                "workspace identity cannot change during refresh"@,
            )
            &&& is_complete(workspace) && state.workspaces.contains_key(workspace.scope)
                && same_identity && given is None ==> decision == DecisionView::Rejected(
                "refreshed Linear metadata must include source state"@,
            )
            &&& is_complete(workspace) && state.workspaces.contains_key(workspace.scope)
                && same_identity && given is Some && text::is_blank(given->0.status) ==> decision
                == DecisionView::Rejected("Linear status must not be empty"@)
            &&& is_complete(workspace) && state.workspaces.contains_key(workspace.scope)
                && same_identity && given is Some && !text::is_blank(given->0.status) && older
                ==> decision == DecisionView::Rejected(
                "Linear metadata refresh is older than cached state"@,
            )
            &&& is_complete(workspace) && state.workspaces.contains_key(workspace.scope)
                && same_identity && given is Some && !text::is_blank(given->0.status) && level
                && known != workspace ==> decision == DecisionView::Rejected(
                "Linear metadata changed without a newer source timestamp"@,
            )
        }),
{
    lemma_workspace_reasons();
}

/// Anyone joins with a scope, a name and a lease of 5 to 300 seconds, and with nothing less; the
/// newcomer is then in that scope under that name until the lease ends, and nothing else has
/// changed.
pub proof fn joining_takes_the_named(
    state: StateView,
    scope: Seq<char>,
    name: Seq<char>,
    manifest: EnvironmentManifestView,
    lease_seconds: u64,
    context: DecisionContext,
    envelopes: Seq<EventEnvelopeView>,
)
    requires
        5 <= lease_seconds <= 300 ==> context.now.has_room(lease_seconds as int),
        model::carries(
            envelopes,
            state.decided(
                CommandView::Join { scope, name, manifest, lease_seconds },
                context,
            ).events(),
        ),
    ensures
        ({
            let decision = state.decided(
                CommandView::Join { scope, name, manifest, lease_seconds },
                context,
            );
            let after = state.replayed(envelopes);
            let newcomer = after.participants[context.participant_id];
            &&& decision is Accepted <==> !text::is_blank(scope) && !text::is_blank(name) && 5
                <= lease_seconds <= 300
            &&& !(decision is Conflict)
            &&& text::is_blank(scope) ==> decision == DecisionView::Rejected(
                "scope must not be empty"@,
            )
            &&& !text::is_blank(scope) && text::is_blank(name) ==> decision
                == DecisionView::Rejected("name must not be empty"@)
            &&& !text::is_blank(scope) && !text::is_blank(name) && !(5 <= lease_seconds <= 300)
                ==> decision == DecisionView::Rejected("lease must be between 5 and 300 seconds"@)
            &&& decision is Accepted ==> {
                &&& decision->Accepted_participant_id == Some(context.participant_id)
                &&& decision->Accepted_work_id is None
                &&& envelopes.len() == 1
                &&& envelopes[0].scope == scope
                &&& envelopes[0].event is ParticipantJoined
                &&& after.participants.dom() == state.participants.dom().insert(
                    context.participant_id,
                )
                &&& newcomer.id == context.participant_id
                &&& newcomer.scope == scope
                &&& newcomer.name == name
                &&& newcomer.manifest == manifest
                &&& newcomer.joined_at == context.now
                &&& newcomer.expires_at.seconds == context.now.seconds + lease_seconds
                &&& context.now.nanos < 1_000_000_000 ==> newcomer.expires_at.nanos
                    == context.now.nanos
                &&& after.participants.remove(context.participant_id) == state.participants.remove(
                    context.participant_id,
                )
                &&& after.workspaces == state.workspaces
                &&& after.work == state.work
                &&& after.signals == state.signals
                &&& after.directions == state.directions
                &&& after.resolved_requests == state.resolved_requests
                &&& after.metrics == state.metrics
            }
        }),
{
    lemma_workspace_reasons();
    reveal_strlit("name");
    reveal_strlit(" must not be empty");
    reveal_strlit("name must not be empty");
    assert("name"@ + " must not be empty"@ =~= "name must not be empty"@);
    if envelopes.len() == 1 {
        replay::replay_of_one(state, envelopes);
        let after = state.replayed(envelopes);
        assert(after.participants.remove(context.participant_id) =~= state.participants.remove(
            context.participant_id,
        ));
    }
}

/// Who is present renews for 5 to 300 seconds: its lease then ends that much later than now, and
/// nothing else of it, or of anyone, has changed.
pub proof fn renewing_moves_the_lease(
    state: StateView,
    participant_id: ParticipantId,
    lease_seconds: u64,
    context: DecisionContext,
    envelopes: Seq<EventEnvelopeView>,
)
    requires
        5 <= lease_seconds <= 300 ==> context.now.has_room(lease_seconds as int),
        model::carries(
            envelopes,
            state.decided(
                CommandView::RenewPresence { participant_id, lease_seconds },
                context,
            ).events(),
        ),
    ensures
        ({
            let decision = state.decided(
                CommandView::RenewPresence { participant_id, lease_seconds },
                context,
            );
            let after = state.replayed(envelopes);
            let was = state.participants[participant_id];
            let is = after.participants[participant_id];
            &&& decision is Accepted <==> is_there(state, participant_id, context.now) && 5
                <= lease_seconds <= 300
            &&& !(decision is Conflict)
            &&& !is_there(state, participant_id, context.now) ==> decision
                == DecisionView::Rejected("participant is absent or its lease expired"@)
            &&& is_there(state, participant_id, context.now) && !(5 <= lease_seconds <= 300)
                ==> decision == DecisionView::Rejected("lease must be between 5 and 300 seconds"@)
            &&& decision is Accepted ==> {
                &&& decision->Accepted_participant_id == Some(participant_id)
                &&& decision->Accepted_work_id is None
                &&& envelopes.len() == 1
                &&& envelopes[0].scope == was.scope
                &&& envelopes[0].event is PresenceRenewed
                &&& after.participants.dom() == state.participants.dom()
                &&& is.id == was.id
                &&& is.scope == was.scope
                &&& is.name == was.name
                &&& is.manifest == was.manifest
                &&& is.joined_at == was.joined_at
                &&& is.expires_at.seconds == context.now.seconds + lease_seconds
                &&& context.now.nanos < 1_000_000_000 ==> is.expires_at.nanos == context.now.nanos
                &&& after.participants.remove(participant_id) == state.participants.remove(
                    participant_id,
                )
                &&& after.workspaces == state.workspaces
                &&& after.work == state.work
                &&& after.signals == state.signals
                &&& after.directions == state.directions
                &&& after.resolved_requests == state.resolved_requests
                &&& after.metrics == state.metrics
            }
        }),
{
    if envelopes.len() == 1 {
        replay::replay_of_one(state, envelopes);
        let after = state.replayed(envelopes);
        assert(after.participants.remove(participant_id) =~= state.participants.remove(
            participant_id,
        ));
        assert(after.participants.dom() =~= state.participants.dom());
    }
}

/// Whether a claim of a scope overlaps some of the paths.
pub open spec fn stands_in_the_way(
    work: WorkClaimView,
    scope: Seq<char>,
    paths: Seq<Seq<char>>,
) -> bool {
    &&& work.scope == scope
    &&& exists|i: int, j: int|
        0 <= i < paths.len() && 0 <= j < work.resources.len() && resources::overlapping(
            #[trigger] paths[i],
            #[trigger] work.resources[j],
        )
}

proof fn lemma_conflicts(
    state: StateView,
    scope: Seq<char>,
    paths: Seq<Seq<char>>,
)
    requires
        state.well_formed(),
    ensures
        forall|conflict: ConflictView| #[trigger]
            state.conflicts(scope, paths).contains(conflict) <==> {
                &&& state.work.contains_key(conflict.work_id)
                &&& stands_in_the_way(state.work[conflict.work_id], scope, paths)
                &&& conflict.owner == state.work[conflict.work_id].owner
                &&& conflict.resources == state.work[conflict.work_id].resources
                &&& conflict.summary == state.work[conflict.work_id].summary
            },
        state.conflicts(scope, paths).len() == 0 <==> forall|id: WorkId| #[trigger]
            state.work.contains_key(id) ==> !stands_in_the_way(state.work[id], scope, paths),
        forall|i: int, j: int|
            0 <= i < j < state.conflicts(scope, paths).len() ==> (#[trigger] state.conflicts(
                scope,
                paths,
            )[i]).work_id.0 < (#[trigger] state.conflicts(scope, paths)[j]).work_id.0,
{
    let all = ordered::in_order::<WorkId, WorkClaimView>(state.work);
    let keys = ordered::listing::<WorkId>(state.work.dom());
    let f = StateView::conflict_with(scope, paths);
    let found = state.conflicts(scope, paths);
    ordered::lemma_in_order::<WorkId, WorkClaimView>(state.work);
    assert forall|conflict: ConflictView| #[trigger] found.contains(conflict) implies {
        &&& state.work.contains_key(conflict.work_id)
        &&& stands_in_the_way(state.work[conflict.work_id], scope, paths)
        &&& conflict.owner == state.work[conflict.work_id].owner
        &&& conflict.resources == state.work[conflict.work_id].resources
        &&& conflict.summary == state.work[conflict.work_id].summary
    } by {
        all.lemma_filter_map_contains(f, conflict);
        let w = choose|w: WorkClaimView| #[trigger] all.contains(w) && f(w) == Some(conflict);
        let k = all.index_of(w);
        assert(all[k] == state.work[keys[k]]);
        assert(state.work.contains_key(keys[k]));
    }
    assert forall|id: WorkId|
        #[trigger] state.work.contains_key(id) && stands_in_the_way(
            state.work[id],
            scope,
            paths,
        ) implies found.contains(
        ConflictView {
            work_id: id,
            owner: state.work[id].owner,
            resources: state.work[id].resources,
            summary: state.work[id].summary,
        },
    ) by {
        assert(keys.contains(id));
        let k = keys.index_of(id);
        assert(all[k] == state.work[id]);
        assert(resources::lists_overlap(paths, state.work[id].resources));
        crate::sequences::lemma_filter_map_has(all, f, k);
    }
    if found.len() > 0 {
        assert(found.contains(found[0]));
        assert(state.work.contains_key(found[0].work_id));
    }
    ordered::lemma_listing_of_finite::<WorkId>(state.work.dom());
    assert forall|i: int, j: int| 0 <= i < j < found.len() implies (
    #[trigger] found[i]).work_id.0 < (#[trigger] found[j]).work_id.0 by {
        let (a, b) = crate::sequences::lemma_filter_map_sources(all, f, i, j);
        assert(all[a] == state.work[keys[a]] && all[b] == state.work[keys[b]]);
        assert(state.work.contains_key(keys[a]) && state.work.contains_key(keys[b]));
        assert(<WorkId as ordered::Key>::before(keys[a], keys[b]));
    }
    assert forall|conflict: ConflictView|
        state.work.contains_key(conflict.work_id) && stands_in_the_way(
            state.work[conflict.work_id],
            scope,
            paths,
        ) && conflict.owner == state.work[conflict.work_id].owner && conflict.resources
            == state.work[conflict.work_id].resources && conflict.summary
            == state.work[conflict.work_id].summary implies #[trigger] found.contains(
        conflict,
    ) by {
        assert(conflict == ConflictView {
            work_id: conflict.work_id,
            owner: state.work[conflict.work_id].owner,
            resources: state.work[conflict.work_id].resources,
            summary: state.work[conflict.work_id].summary,
        });
    }
}

/// Who is present claims any paths, with a summary, that no claim of its scope stands in the way of:
/// the claim is granted, and refused only where the participant is absent, the summary blank, a path
/// refused or no path left. Where claims stand in the way, they are all named, and nothing is
/// granted.
pub proof fn claims_are_granted_where_free(
    state: StateView,
    participant_id: ParticipantId,
    summary: Seq<char>,
    wanted: Seq<Seq<char>>,
    context: DecisionContext,
)
    requires
        state.well_formed(),
    ensures
        ({
            let decision = state.decided(
                CommandView::ClaimWork { participant_id, summary, resources: wanted },
                context,
            );
            let present = is_there(state, participant_id, context.now);
            let scope = state.participants[participant_id].scope;
            let read = resources::normalized(wanted, context.paths);
            let paths = read->Ok_0;
            let asked = present && !text::is_blank(summary) && read is Ok && paths.len() > 0;
            let free = forall|id: WorkId| #[trigger]
                state.work.contains_key(id) ==> !stands_in_the_way(state.work[id], scope, paths);
            &&& !present ==> decision == DecisionView::Rejected(
                "participant is absent or its lease expired"@,
            )
            &&& present && text::is_blank(summary) ==> decision == DecisionView::Rejected(
                "summary must not be empty"@,
            )
            &&& present && !text::is_blank(summary) && read is Err ==> decision
                == DecisionView::Rejected(read->Err_0)
            &&& present && !text::is_blank(summary) && read is Ok && paths.len() == 0 ==> decision
                == DecisionView::Rejected("a work claim needs at least one resource"@)
            &&& decision is Rejected <==> !asked
            &&& decision is Accepted <==> asked && free
            &&& decision is Conflict <==> asked && !free
            &&& decision is Accepted ==> {
                &&& decision->Accepted_participant_id == Some(participant_id)
                &&& decision->Accepted_work_id == Some(context.work_id)
                &&& decision.events().len() == 1
                &&& decision.events()[0].scope == scope
                &&& decision.events()[0].event is WorkClaimed
                &&& {
                    let work = decision.events()[0].event->WorkClaimed_work;
                    &&& work.id == context.work_id
                    &&& work.scope == scope
                    &&& work.owner == participant_id
                    &&& work.summary == summary
                    &&& work.resources == paths
                    &&& work.claimed_at == context.now
                }
            }
            &&& decision is Conflict ==> {
                &&& decision.events().len() == 1
                &&& decision.events()[0].scope == scope
                &&& decision.events()[0].event == (EventKindView::OverlapDetected {
                    attempted_by: participant_id,
                    attempted_resources: paths,
                    conflicts: decision->Conflict_conflicts,
                })
                &&& decision->Conflict_conflicts.len() > 0
                &&& forall|i: int, j: int|
                    0 <= i < j < decision->Conflict_conflicts.len() ==> (
                    #[trigger] decision->Conflict_conflicts[i]).work_id.0 < (
                    #[trigger] decision->Conflict_conflicts[j]).work_id.0
                &&& forall|conflict: ConflictView| #[trigger]
                    decision->Conflict_conflicts.contains(conflict) <==> {
                        &&& state.work.contains_key(conflict.work_id)
                        &&& stands_in_the_way(state.work[conflict.work_id], scope, paths)
                        &&& conflict.owner == state.work[conflict.work_id].owner
                        &&& conflict.resources == state.work[conflict.work_id].resources
                        &&& conflict.summary == state.work[conflict.work_id].summary
                    }
            }
        }),
{
    reveal_strlit("summary");
    reveal_strlit(" must not be empty");
    reveal_strlit("summary must not be empty");
    assert("summary"@ + " must not be empty"@ =~= "summary must not be empty"@);
    lemma_conflicts(
        state,
        state.participants[participant_id].scope,
        resources::normalized(wanted, context.paths)->Ok_0,
    );
}

/// A claim that was granted is there and nothing else has changed; one that was not only raises the
/// count of prevented overlaps.
pub proof fn claiming_adds_the_claim(
    state: StateView,
    participant_id: ParticipantId,
    summary: Seq<char>,
    wanted: Seq<Seq<char>>,
    context: DecisionContext,
    envelopes: Seq<EventEnvelopeView>,
)
    requires
        model::carries(
            envelopes,
            state.decided(
                CommandView::ClaimWork { participant_id, summary, resources: wanted },
                context,
            ).events(),
        ),
    ensures
        ({
            let decision = state.decided(
                CommandView::ClaimWork { participant_id, summary, resources: wanted },
                context,
            );
            let after = state.replayed(envelopes);
            &&& decision is Accepted ==> after.work == state.work.insert(
                context.work_id,
                WorkClaimView {
                    id: context.work_id,
                    scope: state.participants[participant_id].scope,
                    owner: participant_id,
                    summary,
                    resources: resources::normalized(wanted, context.paths)->Ok_0,
                    claimed_at: context.now,
                },
            ) && after.metrics == state.metrics
            &&& !(decision is Accepted) ==> after.work == state.work
            &&& after.participants == state.participants
            &&& after.workspaces == state.workspaces
            &&& after.signals == state.signals
            &&& after.directions == state.directions
            &&& after.resolved_requests == state.resolved_requests
        }),
{
    if envelopes.len() == 1 {
        replay::replay_of_one(state, envelopes);
    }
}

/// Whether a signal makes a request of an identity: it is a call for help, a question, a block or a
/// call for review that bears it.
pub open spec fn asks_as(signal: SignalView, request_id: RequestId) -> bool {
    let identity = match signal {
        SignalView::HelpNeeded { identity, .. } => identity,
        SignalView::DecisionNeeded { identity, .. } => identity,
        SignalView::Blocked { identity, .. } => identity,
        SignalView::ReviewRequested { identity, .. } => identity,
        _ => None,
    };
    identity is Some && identity->0.request_id == request_id
}

/// The request that a signal says it supersedes.
pub open spec fn names_superseded(signal: SignalView) -> Option<RequestId> {
    let identity = match signal {
        SignalView::HelpNeeded { identity, .. } => identity,
        SignalView::DecisionNeeded { identity, .. } => identity,
        SignalView::Blocked { identity, .. } => identity,
        SignalView::ReviewRequested { identity, .. } => identity,
        _ => None,
    };
    match identity {
        Some(identity) => identity.supersedes_request_id,
        None => None,
    }
}

/// The work that a signal is about belongs: it is active in the sender's scope, and whoever says
/// that it works, has reached a checkpoint, wants a review or is done owns it.
pub open spec fn work_belongs(
    state: StateView,
    participant_id: ParticipantId,
    work_id: Option<WorkId>,
    signal: SignalView,
) -> bool {
    let own = signal is Working || signal is Checkpoint || signal is ReviewRequested
        || signal is Done;
    &&& own ==> work_id is Some
    &&& work_id is Some ==> {
        &&& state.work.contains_key(work_id->0)
        &&& state.work[work_id->0].scope == state.participants[participant_id].scope
        &&& own ==> state.work[work_id->0].owner == participant_id
    }
}

/// The request that a signal makes is new, and what it supersedes is another request of the same
/// sender on the same work in the same scope.
pub open spec fn request_is_new(
    state: StateView,
    participant_id: ParticipantId,
    work_id: Option<WorkId>,
    signal: SignalView,
) -> bool {
    &&& forall|id: RequestId, i: int|
        0 <= i < state.signals.len() && #[trigger] asks_as(signal, id) ==> !asks_as(
            (#[trigger] state.signals[i]).published.signal,
            id,
        )
    &&& names_superseded(signal) is Some ==> {
        let superseded = names_superseded(signal)->0;
        &&& !asks_as(signal, superseded)
        &&& exists|i: int|
            0 <= i < state.signals.len() && asks_as(
                (#[trigger] state.signals[i]).published.signal,
                superseded,
            ) && state.signals[i].scope == state.participants[participant_id].scope
                && state.signals[i].published.participant_id == participant_id
                && state.signals[i].published.work_id == work_id
    }
}

/// Whoever is present publishes what is fit: the signal's own work belongs to it and its request is
/// new; and nothing else is published.
pub proof fn fit_signals_are_published(
    state: StateView,
    participant_id: ParticipantId,
    work_id: Option<WorkId>,
    signal: SignalView,
    context: DecisionContext,
)
    ensures
        ({
            let decision = state.decided(
                CommandView::PublishSignal { participant_id, work_id, signal },
                context,
            );
            let present = is_there(state, participant_id, context.now);
            let scope = state.participants[participant_id].scope;
            let belongs = work_belongs(state, participant_id, work_id, signal);
            let new = request_is_new(state, participant_id, work_id, signal);
            &&& decision is Accepted <==> present && signal.fault() is None && new && belongs
            &&& !(decision is Conflict)
            &&& !present ==> decision == DecisionView::Rejected(
                "participant is absent or its lease expired"@,
            )
            &&& present && signal.fault() is Some ==> decision == DecisionView::Rejected(
                signal.fault()->0,
            )
            &&& forall|id: RequestId, i: int|
                present && signal.fault() is None && 0 <= i < state.signals.len()
                    && #[trigger] asks_as(signal, id) && asks_as(
                    (#[trigger] state.signals[i]).published.signal,
                    id,
                ) ==> decision == DecisionView::Rejected("request ID already exists"@)
            &&& present && signal.fault() is None && !new && !(decision == DecisionView::Rejected(
                "request ID already exists"@,
            )) ==> decision == DecisionView::Rejected(
                if asks_as(signal, names_superseded(signal)->0) {
                    "request cannot supersede itself"@
                } else {
                    "superseded request does not exist"@
                },
            )
            &&& present && signal.fault() is None && new && !belongs ==> decision
                == DecisionView::Rejected(
                if work_id is None {
                    "signal requires an active work claim"@
                } else if !state.work.contains_key(work_id->0) {
                    "work claim is not active"@
                } else if state.work[work_id->0].scope != scope {
                    "work claim belongs to a different workspace"@
                } else {
                    "signal requires ownership of the work claim"@
                },
            )
            &&& decision is Accepted ==> {
                &&& decision->Accepted_participant_id == Some(participant_id)
                &&& decision->Accepted_work_id == work_id
                &&& decision.events().len() == if signal is Done {
                    2int
                } else {
                    1
                }
                &&& decision.events()[0].scope == scope
                &&& decision.events()[0].event == (EventKindView::SignalPublished {
                    published: PublishedSignalView {
                        participant_id,
                        work_id,
                        signal,
                        published_at: context.now,
                    },
                })
                &&& signal is Done ==> decision.events()[1].scope == scope
                    && decision.events()[1].event == (EventKindView::WorkReleased {
                    work_id: work_id->0,
                    previous_owner: participant_id,
                    reason: ReleaseReason::Completed,
                })
            }
        }),
{
    let scope = state.participants[participant_id].scope;
    assert forall|s: SignalView, id: RequestId| #[trigger] asks_as(s, id) <==> s.request_identity()
        is Some && s.request_identity()->0.request_id == id by {}
    if let Some(identity) = signal.request_identity() {
        assert(asks_as(signal, identity.request_id));
        if state.knows_request(identity.request_id) {
            let i = choose|i: int|
                0 <= i < state.signals.len() && (#[trigger] state.signals[i]).makes(
                    identity.request_id,
                );
            assert(asks_as(state.signals[i].published.signal, identity.request_id));
        }
        if let Some(superseded) = identity.supersedes_request_id {
            if state.made_request(scope, participant_id, work_id, superseded) {
                let i = choose|i: int|
                    0 <= i < state.signals.len() && (#[trigger] state.signals[i]).makes(superseded)
                        && state.signals[i].scope == scope
                        && state.signals[i].published.participant_id == participant_id
                        && state.signals[i].published.work_id == work_id;
                assert(asks_as(state.signals[i].published.signal, superseded));
            }
        }
        assert forall|id: RequestId, i: int|
            0 <= i < state.signals.len() && #[trigger] asks_as(signal, id) && asks_as(
                (#[trigger] state.signals[i]).published.signal,
                id,
            ) implies state.knows_request(identity.request_id) by {
            assert(state.signals[i].makes(identity.request_id));
        }
        if exists|i: int|
            0 <= i < state.signals.len() && asks_as(
                (#[trigger] state.signals[i]).published.signal,
                identity.supersedes_request_id->0,
            ) && state.signals[i].scope == scope && state.signals[i].published.participant_id
                == participant_id && state.signals[i].published.work_id == work_id {
            let i = choose|i: int|
                0 <= i < state.signals.len() && asks_as(
                    (#[trigger] state.signals[i]).published.signal,
                    identity.supersedes_request_id->0,
                ) && state.signals[i].scope == scope && state.signals[i].published.participant_id
                    == participant_id && state.signals[i].published.work_id == work_id;
            assert(state.signals[i].makes(identity.supersedes_request_id->0));
        }
    }
}

/// Whoever works, has reached a checkpoint, wants a review or is done says so of its own active work
/// in its own scope, or is not heard.
pub proof fn owners_speak_of_their_work(
    state: StateView,
    participant_id: ParticipantId,
    work_id: Option<WorkId>,
    signal: SignalView,
    context: DecisionContext,
)
    requires
        state.decided(
            CommandView::PublishSignal { participant_id, work_id, signal },
            context,
        ) is Accepted,
        signal is Working || signal is Checkpoint || signal is ReviewRequested || signal is Done,
    ensures
        work_id is Some,
        state.work.contains_key(work_id->0),
        state.work[work_id->0].owner == participant_id,
        state.work[work_id->0].scope == state.participants[participant_id].scope,
{
    fit_signals_are_published(state, participant_id, work_id, signal, context);
}

/// Publishing adds the signal behind all others, takes the work out of the active where it is done,
/// and changes nothing else.
pub proof fn publishing_adds_the_signal(
    state: StateView,
    participant_id: ParticipantId,
    work_id: Option<WorkId>,
    signal: SignalView,
    context: DecisionContext,
    envelopes: Seq<EventEnvelopeView>,
)
    requires
        state.decided(
            CommandView::PublishSignal { participant_id, work_id, signal },
            context,
        ) is Accepted,
        model::carries(
            envelopes,
            state.decided(
                CommandView::PublishSignal { participant_id, work_id, signal },
                context,
            ).events(),
        ),
    ensures
        ({
            let after = state.replayed(envelopes);
            let n = state.signals.len() as int;
            &&& after.signals.len() == n + 1
            &&& forall|i: int| 0 <= i < n ==> #[trigger] after.signals[i] == state.signals[i]
            &&& after.signals[n].scope == state.participants[participant_id].scope
            &&& after.signals[n].event_id == envelopes[0].event_id
            &&& after.signals[n].sequence == envelopes[0].sequence
            &&& after.signals[n].published.participant_id == participant_id
            &&& after.signals[n].published.work_id == work_id
            &&& after.signals[n].published.signal == signal
            &&& after.signals[n].published.published_at == context.now
            &&& after.work == if signal is Done {
                state.work.remove(work_id->0)
            } else {
                state.work
            }
            &&& after.participants == state.participants
            &&& after.workspaces == state.workspaces
            &&& after.directions == state.directions
            &&& after.resolved_requests == state.resolved_requests
            &&& after.metrics == state.metrics
        }),
{
    fit_signals_are_published(state, participant_id, work_id, signal, context);
    if signal is Done {
        let init = envelopes.drop_last();
        assert(init[0] == envelopes[0]);
        replay::replay_of_one(state, init);
        assert(envelopes.last() == envelopes[1]);
    } else {
        replay::replay_of_one(state, envelopes);
    }
}

/// Whether a later request of the same sender on the same work in the same scope took the place of
/// the one that a signal makes: it bears the same key, or names the request.
pub open spec fn was_overtaken(state: StateView, at: int) -> bool {
    exists|j: int|
        0 <= j < state.signals.len() && #[trigger] overtakes(
            state.signals[j].published.signal,
            state.signals[at].published.signal,
        ) && state.signals[j].scope == state.signals[at].scope && state.signals[j].sequence
            > state.signals[at].sequence && state.signals[j].published.participant_id
            == state.signals[at].published.participant_id && state.signals[j].published.work_id
            == state.signals[at].published.work_id
}

/// The key of the request that a signal makes.
pub open spec fn key_of(signal: SignalView) -> Option<Seq<char>> {
    let identity = match signal {
        SignalView::HelpNeeded { identity, .. } => identity,
        SignalView::DecisionNeeded { identity, .. } => identity,
        SignalView::Blocked { identity, .. } => identity,
        SignalView::ReviewRequested { identity, .. } => identity,
        _ => None,
    };
    match identity {
        Some(identity) => Some(identity.request_key),
        None => None,
    }
}

/// Whether one request bears the key of the other or names it.
pub open spec fn overtakes(signal: SignalView, other: SignalView) -> bool {
    &&& key_of(signal) is Some
    &&& key_of(other) is Some
    &&& key_of(signal) == key_of(other) || (names_superseded(signal) is Some && asks_as(
        other,
        names_superseded(signal)->0,
    ))
}

proof fn lemma_overtaken(state: StateView, at: int)
    requires
        0 <= at < state.signals.len(),
        state.signals[at].identity() is Some,
    ensures
        state.superseded(state.signals[at]) == was_overtaken(state, at),
{
    let source = state.signals[at];
    if state.superseded(source) {
        let j = choose|j: int|
            0 <= j < state.signals.len() && (#[trigger] state.signals[j]).supersedes(source);
        assert(overtakes(state.signals[j].published.signal, source.published.signal));
    }
    if was_overtaken(state, at) {
        let j = choose|j: int|
            0 <= j < state.signals.len() && #[trigger] overtakes(
                state.signals[j].published.signal,
                state.signals[at].published.signal,
            ) && state.signals[j].scope == state.signals[at].scope && state.signals[j].sequence
                > state.signals[at].sequence && state.signals[j].published.participant_id
                == state.signals[at].published.participant_id && state.signals[j].published.work_id
                == state.signals[at].published.work_id;
        assert(state.signals[j].supersedes(source));
    }
}

/// Whoever is present, says how, and made a request or owns its work, resolves it in its own scope,
/// unless it was resolved before or another took its place; nobody else does.
pub proof fn own_requests_are_resolved(
    state: StateView,
    participant_id: ParticipantId,
    request_id: RequestId,
    summary: Seq<char>,
    context: DecisionContext,
    at: int,
)
    requires
        crate::laws::attention::requests_are_distinct(state),
        0 <= at < state.signals.len(),
        asks_as(state.signals[at].published.signal, request_id),
    ensures
        ({
            let decision = state.decided(
                CommandView::ResolveAttention { participant_id, request_id, summary },
                context,
            );
            let present = is_there(state, participant_id, context.now);
            let source = state.signals[at];
            let open = !state.resolved_requests.contains(request_id) && !was_overtaken(state, at);
            let own = source.scope == state.participants[participant_id].scope && (
            source.published.participant_id == participant_id || (source.published.work_id is Some
                && state.work.contains_key(source.published.work_id->0)
                && state.work[source.published.work_id->0].owner == participant_id));
            &&& decision is Accepted <==> present && !text::is_blank(summary) && open && own
            &&& !(decision is Conflict)
            &&& !present ==> decision == DecisionView::Rejected(
                "participant is absent or its lease expired"@,
            )
            &&& present && text::is_blank(summary) ==> decision == DecisionView::Rejected(
                "summary must not be empty"@,
            )
            &&& present && !text::is_blank(summary) && !open ==> decision
                == DecisionView::Rejected("request is no longer open"@)
            &&& present && !text::is_blank(summary) && open && !own ==> decision
                == DecisionView::Rejected("participant cannot resolve this request"@)
            &&& decision is Accepted ==> {
                &&& decision->Accepted_participant_id == Some(participant_id)
                &&& decision->Accepted_work_id == source.published.work_id
                &&& decision.events() == seq![
                    PendingEventView {
                        scope: source.scope,
                        event: EventKindView::AttentionResolved {
                            request_id,
                            participant_id,
                            summary,
                            resolved_at: context.now,
                        },
                    },
                ]
            }
        }),
{
    reveal_strlit("summary");
    reveal_strlit(" must not be empty");
    reveal_strlit("summary must not be empty");
    assert("summary"@ + " must not be empty"@ =~= "summary must not be empty"@);
    crate::laws::attention::lemma_first_request(state.signals, request_id);
    assert(state.signals[at].makes(request_id));
    let k = model::first_request(state.signals, request_id)->0;
    if k < at {
        assert(!state.signals[at].makes(state.signals[k].identity()->0.request_id));
    } else if at < k {
        assert(!state.signals[k].makes(state.signals[at].identity()->0.request_id));
    }
    lemma_overtaken(state, at);
}

/// A request that no signal made is resolved by nobody.
pub proof fn unknown_requests_are_not_resolved(
    state: StateView,
    participant_id: ParticipantId,
    request_id: RequestId,
    summary: Seq<char>,
    context: DecisionContext,
)
    requires
        forall|i: int|
            0 <= i < state.signals.len() ==> !asks_as(
                (#[trigger] state.signals[i]).published.signal,
                request_id,
            ),
    ensures
        ({
            let decision = state.decided(
                CommandView::ResolveAttention { participant_id, request_id, summary },
                context,
            );
            &&& decision is Rejected
            &&& is_there(state, participant_id, context.now) && !text::is_blank(summary)
                ==> decision == DecisionView::Rejected("request does not exist"@)
        }),
{
    crate::laws::attention::lemma_first_request(state.signals, request_id);
    if let Some(i) = model::first_request(state.signals, request_id) {
        assert(asks_as(state.signals[i].published.signal, request_id));
    }
}

/// Resolving marks the request as resolved and changes nothing else.
pub proof fn resolving_marks_the_request(
    state: StateView,
    participant_id: ParticipantId,
    request_id: RequestId,
    summary: Seq<char>,
    context: DecisionContext,
    envelopes: Seq<EventEnvelopeView>,
)
    requires
        state.decided(
            CommandView::ResolveAttention { participant_id, request_id, summary },
            context,
        ) is Accepted,
        model::carries(
            envelopes,
            state.decided(
                CommandView::ResolveAttention { participant_id, request_id, summary },
                context,
            ).events(),
        ),
    ensures
        ({
            let after = state.replayed(envelopes);
            &&& after.resolved_requests == state.resolved_requests.insert(request_id)
            &&& after.signals == state.signals
            &&& after.work == state.work
            &&& after.participants == state.participants
            &&& after.workspaces == state.workspaces
            &&& after.directions == state.directions
            &&& after.metrics == state.metrics
        }),
{
    replay::replay_of_one(state, envelopes);
}

/// Whether a target fits an open request of a scope by every mark: its scope, event, sender, work
/// and identity; nothing has resolved it, no direction answers it and no other took its place.
pub open spec fn fits_open_request(
    state: StateView,
    scope: Seq<char>,
    target: DirectionTarget,
    at: int,
) -> bool {
    let source = state.signals[at];
    &&& source.scope == scope
    &&& source.event_id == target.source_event_id
    &&& source.published.participant_id == target.participant_id
    &&& source.published.work_id == target.work_id
    &&& target.request_id is Some
    &&& asks_as(source.published.signal, target.request_id->0)
    &&& !state.resolved_requests.contains(target.request_id->0)
    &&& !was_overtaken(state, at)
    &&& forall|id: DirectionId| #[trigger]
        state.directions.contains_key(id) && state.directions[id].target is Some ==> {
            let other = state.directions[id].target->0;
            match other.request_id {
                Some(request_id) => request_id != target.request_id->0,
                None => !(other.source_event_id == source.event_id && other.participant_id
                    == source.published.participant_id && other.work_id
                    == source.published.work_id),
            }
        }
}

/// A signal that makes no request leaves none open, whatever has happened.
pub proof fn what_asks_nothing_is_settled(state: StateView, source: StoredSignalView)
    requires
        key_of(source.published.signal) is None,
    ensures
        state.settled(source),
{
}

/// To fit an open request by every mark is to name one that nothing has settled.
pub proof fn lemma_fits(state: StateView, scope: Seq<char>, target: DirectionTarget, at: int)
    requires
        0 <= at < state.signals.len(),
    ensures
        fits_open_request(state, scope, target, at) == (model::names(
            scope,
            target,
            state.signals[at],
        ) && !state.settled(state.signals[at])),
{
    let source = state.signals[at];
    if model::names(scope, target, source) || fits_open_request(state, scope, target, at) {
        assert(source.makes(target.request_id->0));
        lemma_overtaken(state, at);
        if state.answered(source) {
            let id = choose|id: DirectionId|
                state.directions.contains_key(id) && source.answered_by(
                    (#[trigger] state.directions[id]).target,
                );
            assert(state.directions.contains_key(id));
        }
        if !state.answered(source) {
            assert forall|id: DirectionId| #[trigger]
                state.directions.contains_key(id) && state.directions[id].target is Some implies {
                let other = state.directions[id].target->0;
                match other.request_id {
                    Some(request_id) => request_id != target.request_id->0,
                    None => !(other.source_event_id == source.event_id && other.participant_id
                        == source.published.participant_id && other.work_id
                        == source.published.work_id),
                }
            } by {
                assert(!source.answered_by(state.directions[id].target));
            }
        }
    }
}

/// A human direction needs a scope, a message and an author. Without a target it is a broadcast and
/// taken as it is; with one it must fit an open request of the scope. What is taken is issued as it
/// was given, by one event, with no delivery yet.
pub proof fn directions_are_issued_as_given(
    state: StateView,
    scope: Seq<char>,
    message: Seq<char>,
    author: Seq<char>,
    target: Option<DirectionTarget>,
    context: DecisionContext,
)
    ensures
        ({
            let decision = state.decided(
                CommandView::Intervene { scope, message, author, target },
                context,
            );
            let worded = !text::is_blank(scope) && !text::is_blank(message) && !text::is_blank(
                author,
            );
            let aimed = target is None || exists|i: int|
                0 <= i < state.signals.len() && #[trigger] fits_open_request(
                    state,
                    scope,
                    target->0,
                    i,
                );
            &&& decision is Accepted <==> worded && aimed
            &&& !(decision is Conflict)
            &&& text::is_blank(scope) ==> decision == DecisionView::Rejected(
                "scope must not be empty"@,
            )
            &&& !text::is_blank(scope) && text::is_blank(message) ==> decision
                == DecisionView::Rejected("message must not be empty"@)
            &&& !text::is_blank(scope) && !text::is_blank(message) && text::is_blank(author)
                ==> decision == DecisionView::Rejected("author must not be empty"@)
            &&& worded && !aimed ==> decision == DecisionView::Rejected(
                "direction target does not identify a source request in this workspace"@,
            )
            &&& decision is Accepted ==> {
                &&& decision->Accepted_participant_id is None
                &&& decision->Accepted_work_id is None
                &&& decision.events().len() == 1
                &&& decision.events()[0].scope == scope
                &&& decision.events()[0].event is DirectionIssued
                &&& {
                    let direction = decision.events()[0].event->DirectionIssued_direction;
                    &&& direction.id == context.direction_id
                    &&& direction.scope == scope
                    &&& direction.message == message
                    &&& direction.author == author
                    &&& direction.created_at == context.now
                    &&& direction.target == target
                    &&& direction.deliveries.len() == 0
                }
            }
        }),
{
    lemma_workspace_reasons();
    reveal_strlit("message");
    reveal_strlit("author");
    reveal_strlit(" must not be empty");
    reveal_strlit("message must not be empty");
    reveal_strlit("author must not be empty");
    assert("message"@ + " must not be empty"@ =~= "message must not be empty"@);
    assert("author"@ + " must not be empty"@ =~= "author must not be empty"@);
    if let Some(named) = target {
        if state.names_open_request(scope, named) {
            let i = choose|i: int|
                0 <= i < state.signals.len() && model::names(
                    scope,
                    named,
                    #[trigger] state.signals[i],
                ) && !state.settled(state.signals[i]);
            lemma_fits(state, scope, named, i);
            assert(fits_open_request(state, scope, named, i));
        }
        assert forall|i: int|
            0 <= i < state.signals.len() && #[trigger] fits_open_request(
                state,
                scope,
                named,
                i,
            ) implies state.names_open_request(scope, named) by {
            lemma_fits(state, scope, named, i);
        }
    }
}

/// Issuing a direction adds it to those that are known, counts it as an intervention in its scope,
/// and changes nothing else.
pub proof fn directing_adds_the_direction(
    state: StateView,
    scope: Seq<char>,
    message: Seq<char>,
    author: Seq<char>,
    target: Option<DirectionTarget>,
    context: DecisionContext,
    envelopes: Seq<EventEnvelopeView>,
)
    requires
        state.decided(
            CommandView::Intervene { scope, message, author, target },
            context,
        ) is Accepted,
        model::carries(
            envelopes,
            state.decided(
                CommandView::Intervene { scope, message, author, target },
                context,
            ).events(),
        ),
        state.metrics_of(scope).human_interventions < u64::MAX,
    ensures
        ({
            let after = state.replayed(envelopes);
            &&& after.directions == state.directions.insert(
                context.direction_id,
                DirectionView {
                    id: context.direction_id,
                    scope,
                    message,
                    author,
                    created_at: context.now,
                    target,
                    deliveries: Seq::empty(),
                },
            )
            &&& after.metrics_of(scope).human_interventions == state.metrics_of(
                scope,
            ).human_interventions + 1
            &&& after.metrics_of(scope).prevented_overlaps == state.metrics_of(
                scope,
            ).prevented_overlaps
            &&& after.signals == state.signals
            &&& after.work == state.work
            &&& after.participants == state.participants
            &&& after.workspaces == state.workspaces
            &&& after.resolved_requests == state.resolved_requests
        }),
{
    replay::replay_of_one(state, envelopes);
}

} // verus!
