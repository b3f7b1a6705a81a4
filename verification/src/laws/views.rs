//! What values stand for: every part of them, as it is.
use vstd::prelude::*;

use crate::coordination::{Decision, DecisionView, PendingEvent};
use crate::protocol::{
    ArtifactRef, AttentionItem, AttentionRequest, AttentionRequestView, AttentionTarget, Command,
    CommandResult, CommandResultView, CommandView, Conflict, Direction, EnvironmentManifest,
    EventEnvelope, EventKind, EventKindView, LinearIssue, LinearMetadata, Participant,
    PublishedSignal, RepositoryRef, RequestIdentity, ScopeSnapshot, Signal, SignalView, WorkClaim,
    Workspace, WorkspaceSummary,
};

verus! {

/// A workspace stands for what it holds: its scope, its words, its issue and its repository.
pub proof fn workspaces_stand_for_what_they_hold(
    workspace: Workspace,
    linear_issue: LinearIssue,
    linear_metadata: LinearMetadata,
    repository_ref: RepositoryRef,
)
    ensures
        workspace@.scope == workspace.scope.deep_view(),
        workspace@.title == workspace.title.deep_view(),
        workspace@.objective == workspace.objective.deep_view(),
        workspace@.linear_issue == workspace.linear_issue.deep_view(),
        workspace@.repository == workspace.repository.deep_view(),
        linear_issue@.identifier == linear_issue.identifier.deep_view(),
        linear_issue@.url == linear_issue.url.deep_view(),
        linear_issue@.metadata == linear_issue.metadata.deep_view(),
        linear_metadata@.status == linear_metadata.status.deep_view(),
        linear_metadata@.updated_at == linear_metadata.updated_at,
        repository_ref@.repository == repository_ref.repository.deep_view(),
        repository_ref@.revision == repository_ref.revision.deep_view(),
{
}

/// A participant and its claims stand for what they hold.
pub proof fn participants_stand_for_what_they_hold(
    participant: Participant,
    environment_manifest: EnvironmentManifest,
    work_claim: WorkClaim,
    conflict: Conflict,
)
    ensures
        participant@.id == participant.id,
        participant@.scope == participant.scope.deep_view(),
        participant@.name == participant.name.deep_view(),
        participant@.manifest == participant.manifest.deep_view(),
        participant@.joined_at == participant.joined_at,
        participant@.expires_at == participant.expires_at,
        environment_manifest@.harness == environment_manifest.harness.deep_view(),
        environment_manifest@.repository == environment_manifest.repository.deep_view(),
        environment_manifest@.revision == environment_manifest.revision.deep_view(),
        environment_manifest@.worktree == environment_manifest.worktree.deep_view(),
        environment_manifest@.capabilities == environment_manifest.capabilities.deep_view(),
        work_claim@.id == work_claim.id,
        work_claim@.scope == work_claim.scope.deep_view(),
        work_claim@.owner == work_claim.owner,
        work_claim@.summary == work_claim.summary.deep_view(),
        work_claim@.resources == work_claim.resources.deep_view(),
        work_claim@.claimed_at == work_claim.claimed_at,
        conflict@.work_id == conflict.work_id,
        conflict@.owner == conflict.owner,
        conflict@.resources == conflict.resources.deep_view(),
        conflict@.summary == conflict.summary.deep_view(),
{
}

/// A signal stands for what it says, in its own kind, with its identity and its artifacts.
pub proof fn signals_stand_for_what_they_hold(
    signal: Signal,
    request_identity: RequestIdentity,
    artifact_ref: ArtifactRef,
    published_signal: PublishedSignal,
)
    ensures
        match signal {
            Signal::Working { summary } => signal@ == (SignalView::Working {
                summary: summary.deep_view(),
            }),
            Signal::Finding { summary, artifacts } => signal@ == (SignalView::Finding {
                summary: summary.deep_view(),
                artifacts: artifacts.deep_view(),
            }),
            Signal::Offering { summary, artifacts } => signal@ == (SignalView::Offering {
                summary: summary.deep_view(),
                artifacts: artifacts.deep_view(),
            }),
            Signal::HelpNeeded {
                identity,
                summary,
                requested_action,
                evidence,
            } => signal@ == (SignalView::HelpNeeded {
                identity: identity.deep_view(),
                summary: summary.deep_view(),
                requested_action: requested_action.deep_view(),
                evidence: evidence.deep_view(),
            }),
            Signal::DecisionNeeded {
                identity,
                summary,
                choices,
                recommendation,
                evidence,
            } => signal@ == (SignalView::DecisionNeeded {
                identity: identity.deep_view(),
                summary: summary.deep_view(),
                choices: choices.deep_view(),
                recommendation: recommendation.deep_view(),
                evidence: evidence.deep_view(),
            }),
            Signal::Blocked {
                identity,
                summary,
                requested_action,
                evidence,
            } => signal@ == (SignalView::Blocked {
                identity: identity.deep_view(),
                summary: summary.deep_view(),
                requested_action: requested_action.deep_view(),
                evidence: evidence.deep_view(),
            }),
            Signal::Checkpoint { summary, artifacts } => signal@ == (SignalView::Checkpoint {
                summary: summary.deep_view(),
                artifacts: artifacts.deep_view(),
            }),
            Signal::ReviewRequested {
                identity,
                summary,
                requested_action,
                known_risk,
                evidence,
            } => signal@ == (SignalView::ReviewRequested {
                identity: identity.deep_view(),
                summary: summary.deep_view(),
                requested_action: requested_action.deep_view(),
                known_risk: known_risk.deep_view(),
                evidence: evidence.deep_view(),
            }),
            Signal::Done { summary, evidence } => signal@ == (SignalView::Done {
                summary: summary.deep_view(),
                evidence: evidence.deep_view(),
            }),
        },
        request_identity@.request_id == request_identity.request_id,
        request_identity@.request_key == request_identity.request_key.deep_view(),
        request_identity@.supersedes_request_id == request_identity.supersedes_request_id,
        artifact_ref@.kind == artifact_ref.kind,
        artifact_ref@.uri == artifact_ref.uri.deep_view(),
        artifact_ref@.digest == artifact_ref.digest.deep_view(),
        published_signal@.participant_id == published_signal.participant_id,
        published_signal@.work_id == published_signal.work_id,
        published_signal@.signal == published_signal.signal.deep_view(),
        published_signal@.published_at == published_signal.published_at,
{
}

/// A request for attention stands for what it asks, of whom and since when.
pub proof fn requests_stand_for_what_they_hold(
    attention_item: AttentionItem,
    attention_request: AttentionRequest,
    attention_target: AttentionTarget,
)
    ensures
        attention_item@.request_id == attention_item.request_id,
        attention_item@.request_key == attention_item.request_key.deep_view(),
        attention_item@.source_scope == attention_item.source_scope.deep_view(),
        attention_item@.source_event_id == attention_item.source_event_id,
        attention_item@.work_id == attention_item.work_id,
        attention_item@.participant_id == attention_item.participant_id,
        attention_item@.category == attention_item.category,
        attention_item@.created_at == attention_item.created_at,
        attention_item@.lifecycle == attention_item.lifecycle,
        attention_item@.request == attention_item.request.deep_view(),
        attention_item@.evidence == attention_item.evidence.deep_view(),
        attention_item@.target == attention_item.target.deep_view(),
        match attention_request {
            AttentionRequest::Decision {
                question,
                choices,
                recommendation,
            } => attention_request@ == (AttentionRequestView::Decision {
                question: question.deep_view(),
                choices: choices.deep_view(),
                recommendation: recommendation.deep_view(),
            }),
            AttentionRequest::Intervention {
                blocker,
                requested_action,
            } => attention_request@ == (AttentionRequestView::Intervention {
                blocker: blocker.deep_view(),
                requested_action: requested_action.deep_view(),
            }),
            AttentionRequest::Review {
                summary,
                requested_action,
                known_risk,
            } => attention_request@ == (AttentionRequestView::Review {
                summary: summary.deep_view(),
                requested_action: requested_action.deep_view(),
                known_risk: known_risk.deep_view(),
            }),
        },
        attention_target@.scope == attention_target.scope.deep_view(),
        attention_target@.event_id == attention_target.event_id,
{
}

/// A command stands for what it asks, and its answer for what was done.
pub proof fn commands_stand_for_what_they_hold(
    command: Command,
    command_result: CommandResult,
)
    ensures
        match command {
            Command::DefineWorkspace { workspace } => command@ == (CommandView::DefineWorkspace {
                workspace: workspace.deep_view(),
            }),
            Command::RefreshWorkspaceMetadata {
                workspace,
            } => command@ == (CommandView::RefreshWorkspaceMetadata {
                workspace: workspace.deep_view(),
            }),
            Command::Join {
                scope,
                name,
                manifest,
                lease_seconds,
            } => command@ == (CommandView::Join {
                scope: scope.deep_view(),
                name: name.deep_view(),
                manifest: manifest.deep_view(),
                lease_seconds,
            }),
            Command::RenewPresence {
                participant_id,
                lease_seconds,
            } => command@ == (CommandView::RenewPresence {
                participant_id,
                lease_seconds,
            }),
            Command::ClaimWork {
                participant_id,
                summary,
                resources,
            } => command@ == (CommandView::ClaimWork {
                participant_id,
                summary: summary.deep_view(),
                resources: resources.deep_view(),
            }),
            Command::PublishSignal {
                participant_id,
                work_id,
                signal,
            } => command@ == (CommandView::PublishSignal {
                participant_id,
                work_id,
                signal: signal.deep_view(),
            }),
            Command::ResolveAttention {
                participant_id,
                request_id,
                summary,
            } => command@ == (CommandView::ResolveAttention {
                participant_id,
                request_id,
                summary: summary.deep_view(),
            }),
            Command::Leave { participant_id } => command@ == (CommandView::Leave {
                participant_id,
            }),
            Command::Intervene {
                scope,
                message,
                author,
                target,
            } => command@ == (CommandView::Intervene {
                scope: scope.deep_view(),
                message: message.deep_view(),
                author: author.deep_view(),
                target: target.deep_view(),
            }),
            Command::DeliverDirections {
                participant_id,
            } => command@ == (CommandView::DeliverDirections {
                participant_id,
            }),
            Command::ConsumeDirection {
                participant_id,
                direction_id,
            } => command@ == (CommandView::ConsumeDirection {
                participant_id,
                direction_id,
            }),
        },
        match command_result {
            CommandResult::Accepted {
                participant_id,
                work_id,
                request_id,
                event_sequences,
            } => command_result@ == (CommandResultView::Accepted {
                participant_id,
                work_id,
                request_id,
                event_sequences: event_sequences.deep_view(),
            }),
            CommandResult::Conflict {
                conflicts,
                event_sequences,
            } => command_result@ == (CommandResultView::Conflict {
                conflicts: conflicts.deep_view(),
                event_sequences: event_sequences.deep_view(),
            }),
            CommandResult::Rejected { reason } => command_result@ == (CommandResultView::Rejected {
                reason: reason.deep_view(),
            }),
        },
{
}

/// An event stands for what happened, in its own kind, where and when.
pub proof fn events_stand_for_what_they_hold(
    event_kind: EventKind,
    event_envelope: EventEnvelope,
    direction: Direction,
    pending_event: PendingEvent,
)
    ensures
        match event_kind {
            EventKind::WorkspaceDefined {
                workspace,
            } => event_kind@ == (EventKindView::WorkspaceDefined {
                workspace: workspace.deep_view(),
            }),
            EventKind::WorkspaceMetadataUpdated {
                workspace,
            } => event_kind@ == (EventKindView::WorkspaceMetadataUpdated {
                workspace: workspace.deep_view(),
            }),
            EventKind::ParticipantJoined {
                participant,
            } => event_kind@ == (EventKindView::ParticipantJoined {
                participant: participant.deep_view(),
            }),
            EventKind::PresenceRenewed {
                participant_id,
                expires_at,
            } => event_kind@ == (EventKindView::PresenceRenewed {
                participant_id,
                expires_at,
            }),
            EventKind::ParticipantLeft {
                participant_id,
                reason,
            } => event_kind@ == (EventKindView::ParticipantLeft {
                participant_id,
                reason,
            }),
            EventKind::WorkClaimed { work } => event_kind@ == (EventKindView::WorkClaimed {
                work: work.deep_view(),
            }),
            EventKind::OverlapDetected {
                attempted_by,
                attempted_resources,
                conflicts,
            } => event_kind@ == (EventKindView::OverlapDetected {
                attempted_by,
                attempted_resources: attempted_resources.deep_view(),
                conflicts: conflicts.deep_view(),
            }),
            EventKind::WorkReleased {
                work_id,
                previous_owner,
                reason,
            } => event_kind@ == (EventKindView::WorkReleased {
                work_id,
                previous_owner,
                reason,
            }),
            EventKind::SignalPublished {
                published,
            } => event_kind@ == (EventKindView::SignalPublished {
                published: published.deep_view(),
            }),
            EventKind::AttentionResolved {
                request_id,
                participant_id,
                summary,
                resolved_at,
            } => event_kind@ == (EventKindView::AttentionResolved {
                request_id,
                participant_id,
                summary: summary.deep_view(),
                resolved_at,
            }),
            EventKind::HumanIntervened {
                message,
            } => event_kind@ == (EventKindView::HumanIntervened {
                message: message.deep_view(),
            }),
            EventKind::DirectionIssued {
                direction,
            } => event_kind@ == (EventKindView::DirectionIssued {
                direction: direction.deep_view(),
            }),
            EventKind::DirectionDelivered {
                direction_id,
                participant_id,
                delivered_at,
            } => event_kind@ == (EventKindView::DirectionDelivered {
                direction_id,
                participant_id,
                delivered_at,
            }),
            EventKind::DirectionConsumed {
                direction_id,
                participant_id,
                consumed_at,
            } => event_kind@ == (EventKindView::DirectionConsumed {
                direction_id,
                participant_id,
                consumed_at,
            }),
        },
        event_envelope@.sequence == event_envelope.sequence,
        event_envelope@.event_id == event_envelope.event_id,
        event_envelope@.scope == event_envelope.scope.deep_view(),
        event_envelope@.emitted_at == event_envelope.emitted_at,
        event_envelope@.event == event_envelope.event.deep_view(),
        direction@.id == direction.id,
        direction@.scope == direction.scope.deep_view(),
        direction@.message == direction.message.deep_view(),
        direction@.author == direction.author.deep_view(),
        direction@.created_at == direction.created_at,
        direction@.target == direction.target.deep_view(),
        direction@.deliveries == direction.deliveries.deep_view(),
        pending_event@.scope == pending_event.scope@,
        pending_event@.event == pending_event.event@,
{
}

/// A decision stands for its events and its answer.
pub proof fn decisions_stand_for_what_they_hold(decision: Decision)
    ensures
        match decision {
            Decision::Accepted {
                events,
                participant_id,
                work_id,
            } => decision@ == (DecisionView::Accepted {
                events: events.deep_view(),
                participant_id,
                work_id,
            }),
            Decision::Conflict { events, conflicts } => decision@ == (DecisionView::Conflict {
                events: events.deep_view(),
                conflicts: conflicts.deep_view(),
            }),
            Decision::Rejected(reason) => decision@ == DecisionView::Rejected(reason@),
        },
{
}

/// An overview stands for what it shows.
pub proof fn overviews_stand_for_what_they_hold(
    scope_snapshot: ScopeSnapshot,
    workspace_summary: WorkspaceSummary,
)
    ensures
        scope_snapshot@.scope == scope_snapshot.scope.deep_view(),
        scope_snapshot@.workspace == scope_snapshot.workspace.deep_view(),
        scope_snapshot@.participants == scope_snapshot.participants.deep_view(),
        scope_snapshot@.active_work == scope_snapshot.active_work.deep_view(),
        scope_snapshot@.signals == scope_snapshot.signals.deep_view(),
        scope_snapshot@.attention == scope_snapshot.attention.deep_view(),
        scope_snapshot@.metrics == scope_snapshot.metrics.deep_view(),
        scope_snapshot@.last_sequence == scope_snapshot.last_sequence,
        workspace_summary@.scope == workspace_summary.scope.deep_view(),
        workspace_summary@.title == workspace_summary.title.deep_view(),
        workspace_summary@.lifecycle == workspace_summary.lifecycle,
        workspace_summary@.active_participants == workspace_summary.active_participants,
        workspace_summary@.active_work == workspace_summary.active_work,
        workspace_summary@.last_sequence == workspace_summary.last_sequence,
{
}

} // verus!
