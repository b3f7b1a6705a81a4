//! The protocol: commands, events and what is known of a scope.
use vstd::prelude::*;

use crate::sequences;
use crate::time::Timestamp;

pub use crate::identity::{DirectionId, InvalidId, ParticipantId, RequestId, WorkId};

verus! {

/// What a participant says of the environment it works in.
#[derive(Debug, Eq, PartialEq)]
pub struct EnvironmentManifest {
    pub harness: String,
    pub repository: Option<String>,
    pub revision: Option<String>,
    pub worktree: Option<String>,
    pub capabilities: Vec<String>,
}

/// What [`EnvironmentManifest`] stands for.
#[verifier::ext_equal]
pub struct EnvironmentManifestView {
    pub harness: Seq<char>,
    pub repository: Option<Seq<char>>,
    pub revision: Option<Seq<char>>,
    pub worktree: Option<Seq<char>>,
    pub capabilities: Seq<Seq<char>>,
}

impl View for EnvironmentManifest {
    type V = EnvironmentManifestView;

    open spec fn view(&self) -> EnvironmentManifestView {
        EnvironmentManifestView {
            harness: self.harness.deep_view(),
            repository: self.repository.deep_view(),
            revision: self.revision.deep_view(),
            worktree: self.worktree.deep_view(),
            capabilities: self.capabilities.deep_view(),
        }
    }
}

impl DeepView for EnvironmentManifest {
    type V = EnvironmentManifestView;

    open spec fn deep_view(&self) -> EnvironmentManifestView {
        self.view()
    }
}

impl Clone for EnvironmentManifest {
    fn clone(&self) -> (r: Self)
        ensures
            r@ == self@,
    {
        let r = EnvironmentManifest {
            harness: self.harness.clone(),
            repository: self.repository.clone(),
            revision: self.revision.clone(),
            worktree: self.worktree.clone(),
            capabilities: self.capabilities.clone(),
        };
        assert(r.capabilities.deep_view() =~= self.capabilities.deep_view());
        r
    }
}

/// The kinds of artifact that can serve as evidence.
#[derive(Clone, Copy, Debug, Eq, PartialEq, Structural)]
pub enum ArtifactKind {
    File,
    Patch,
    Revision,
    TestReceipt,
    Url,
}

impl DeepView for ArtifactKind {
    type V = ArtifactKind;

    open spec fn deep_view(&self) -> ArtifactKind {
        *self
    }
}

/// A reference to an artifact.
#[derive(Debug, Eq, PartialEq)]
pub struct ArtifactRef {
    pub kind: ArtifactKind,
    pub uri: String,
    pub digest: Option<String>,
}

/// What [`ArtifactRef`] stands for.
#[verifier::ext_equal]
pub struct ArtifactRefView {
    pub kind: ArtifactKind,
    pub uri: Seq<char>,
    pub digest: Option<Seq<char>>,
}

impl View for ArtifactRef {
    type V = ArtifactRefView;

    open spec fn view(&self) -> ArtifactRefView {
        ArtifactRefView {
            kind: self.kind,
            uri: self.uri.deep_view(),
            digest: self.digest.deep_view(),
        }
    }
}

impl DeepView for ArtifactRef {
    type V = ArtifactRefView;

    open spec fn deep_view(&self) -> ArtifactRefView {
        self.view()
    }
}

impl Clone for ArtifactRef {
    fn clone(&self) -> (r: Self)
        ensures
            r@ == self@,
    {
        ArtifactRef {
            kind: self.kind,
            uri: self.uri.clone(),
            digest: self.digest.clone(),
        }
    }
}

impl sequences::Equal for ArtifactRef {
    fn equals(&self, other: &Self) -> (r: bool) {
        self.kind == other.kind && self.uri.equals(&other.uri) && self.digest.equals(&other.digest)
    }
}

/// The state of a Linear issue at its source.
#[derive(Debug, Eq, PartialEq)]
pub struct LinearMetadata {
    pub status: String,
    pub updated_at: Timestamp,
}

/// What [`LinearMetadata`] stands for.
#[verifier::ext_equal]
pub struct LinearMetadataView {
    pub status: Seq<char>,
    pub updated_at: Timestamp,
}

impl View for LinearMetadata {
    type V = LinearMetadataView;

    open spec fn view(&self) -> LinearMetadataView {
        LinearMetadataView {
            status: self.status.deep_view(),
            updated_at: self.updated_at,
        }
    }
}

impl DeepView for LinearMetadata {
    type V = LinearMetadataView;

    open spec fn deep_view(&self) -> LinearMetadataView {
        self.view()
    }
}

impl Clone for LinearMetadata {
    fn clone(&self) -> (r: Self)
        ensures
            r@ == self@,
    {
        LinearMetadata {
            status: self.status.clone(),
            updated_at: self.updated_at,
        }
    }
}

impl sequences::Equal for LinearMetadata {
    fn equals(&self, other: &Self) -> (r: bool) {
        self.status.equals(&other.status) && self.updated_at.equals(&other.updated_at)
    }
}

/// The Linear issue that a workspace belongs to.
#[derive(Debug, Eq, PartialEq)]
pub struct LinearIssue {
    pub identifier: String,
    pub url: Option<String>,
    pub metadata: Option<LinearMetadata>,
}

/// What [`LinearIssue`] stands for.
#[verifier::ext_equal]
pub struct LinearIssueView {
    pub identifier: Seq<char>,
    pub url: Option<Seq<char>>,
    pub metadata: Option<LinearMetadataView>,
}

impl View for LinearIssue {
    type V = LinearIssueView;

    open spec fn view(&self) -> LinearIssueView {
        LinearIssueView {
            identifier: self.identifier.deep_view(),
            url: self.url.deep_view(),
            metadata: self.metadata.deep_view(),
        }
    }
}

impl DeepView for LinearIssue {
    type V = LinearIssueView;

    open spec fn deep_view(&self) -> LinearIssueView {
        self.view()
    }
}

impl Clone for LinearIssue {
    fn clone(&self) -> (r: Self)
        ensures
            r@ == self@,
    {
        LinearIssue {
            identifier: self.identifier.clone(),
            url: self.url.clone(),
            metadata: self.metadata.clone(),
        }
    }
}

impl sequences::Equal for LinearIssue {
    fn equals(&self, other: &Self) -> (r: bool) {
        self.identifier.equals(&other.identifier) && self.url.equals(&other.url) && self.metadata.equals(&other.metadata)
    }
}

/// The repository that a workspace works in.
#[derive(Debug, Eq, PartialEq)]
pub struct RepositoryRef {
    pub repository: String,
    pub revision: Option<String>,
}

/// What [`RepositoryRef`] stands for.
#[verifier::ext_equal]
pub struct RepositoryRefView {
    pub repository: Seq<char>,
    pub revision: Option<Seq<char>>,
}

impl View for RepositoryRef {
    type V = RepositoryRefView;

    open spec fn view(&self) -> RepositoryRefView {
        RepositoryRefView {
            repository: self.repository.deep_view(),
            revision: self.revision.deep_view(),
        }
    }
}

impl DeepView for RepositoryRef {
    type V = RepositoryRefView;

    open spec fn deep_view(&self) -> RepositoryRefView {
        self.view()
    }
}

impl Clone for RepositoryRef {
    fn clone(&self) -> (r: Self)
        ensures
            r@ == self@,
    {
        RepositoryRef {
            repository: self.repository.clone(),
            revision: self.revision.clone(),
        }
    }
}

impl sequences::Equal for RepositoryRef {
    fn equals(&self, other: &Self) -> (r: bool) {
        self.repository.equals(&other.repository) && self.revision.equals(&other.revision)
    }
}

/// A workspace: the shared objective of a scope.
#[derive(Debug, Eq, PartialEq)]
pub struct Workspace {
    pub scope: String,
    pub title: String,
    pub objective: String,
    pub linear_issue: LinearIssue,
    pub repository: Option<RepositoryRef>,
}

/// What [`Workspace`] stands for.
#[verifier::ext_equal]
pub struct WorkspaceView {
    pub scope: Seq<char>,
    pub title: Seq<char>,
    pub objective: Seq<char>,
    pub linear_issue: LinearIssueView,
    pub repository: Option<RepositoryRefView>,
}

impl View for Workspace {
    type V = WorkspaceView;

    open spec fn view(&self) -> WorkspaceView {
        WorkspaceView {
            scope: self.scope.deep_view(),
            title: self.title.deep_view(),
            objective: self.objective.deep_view(),
            linear_issue: self.linear_issue.deep_view(),
            repository: self.repository.deep_view(),
        }
    }
}

impl DeepView for Workspace {
    type V = WorkspaceView;

    open spec fn deep_view(&self) -> WorkspaceView {
        self.view()
    }
}

impl Clone for Workspace {
    fn clone(&self) -> (r: Self)
        ensures
            r@ == self@,
    {
        Workspace {
            scope: self.scope.clone(),
            title: self.title.clone(),
            objective: self.objective.clone(),
            linear_issue: self.linear_issue.clone(),
            repository: self.repository.clone(),
        }
    }
}

impl sequences::Equal for Workspace {
    fn equals(&self, other: &Self) -> (r: bool) {
        self.scope.equals(&other.scope) && self.title.equals(&other.title) && self.objective.equals(&other.objective) && self.linear_issue.equals(&other.linear_issue) && self.repository.equals(&other.repository)
    }
}

/// The identity of a request for attention.
#[derive(Debug, Eq, PartialEq)]
pub struct RequestIdentity {
    pub request_id: RequestId,
    pub request_key: String,
    pub supersedes_request_id: Option<RequestId>,
}

/// What [`RequestIdentity`] stands for.
#[verifier::ext_equal]
pub struct RequestIdentityView {
    pub request_id: RequestId,
    pub request_key: Seq<char>,
    pub supersedes_request_id: Option<RequestId>,
}

impl View for RequestIdentity {
    type V = RequestIdentityView;

    open spec fn view(&self) -> RequestIdentityView {
        RequestIdentityView {
            request_id: self.request_id,
            request_key: self.request_key.deep_view(),
            supersedes_request_id: self.supersedes_request_id,
        }
    }
}

impl DeepView for RequestIdentity {
    type V = RequestIdentityView;

    open spec fn deep_view(&self) -> RequestIdentityView {
        self.view()
    }
}

impl Clone for RequestIdentity {
    fn clone(&self) -> (r: Self)
        ensures
            r@ == self@,
    {
        RequestIdentity {
            request_id: self.request_id,
            request_key: self.request_key.clone(),
            supersedes_request_id: self.supersedes_request_id,
        }
    }
}

/// What a participant tells the others of its work.
#[derive(Debug, Eq, PartialEq)]
pub enum Signal {
    Working {
        summary: String,
    },
    Finding {
        summary: String,
        artifacts: Vec<ArtifactRef>,
    },
    Offering {
        summary: String,
        artifacts: Vec<ArtifactRef>,
    },
    HelpNeeded {
        identity: Option<RequestIdentity>,
        summary: String,
        requested_action: String,
        evidence: Vec<ArtifactRef>,
    },
    DecisionNeeded {
        identity: Option<RequestIdentity>,
        summary: String,
        choices: Vec<String>,
        recommendation: Option<String>,
        evidence: Vec<ArtifactRef>,
    },
    Blocked {
        identity: Option<RequestIdentity>,
        summary: String,
        requested_action: String,
        evidence: Vec<ArtifactRef>,
    },
    Checkpoint {
        summary: String,
        artifacts: Vec<ArtifactRef>,
    },
    ReviewRequested {
        identity: Option<RequestIdentity>,
        summary: String,
        requested_action: String,
        known_risk: String,
        evidence: Vec<ArtifactRef>,
    },
    Done {
        summary: String,
        evidence: Vec<ArtifactRef>,
    },
}

/// What [`Signal`] stands for.
#[verifier::ext_equal]
pub enum SignalView {
    Working {
        summary: Seq<char>,
    },
    Finding {
        summary: Seq<char>,
        artifacts: Seq<ArtifactRefView>,
    },
    Offering {
        summary: Seq<char>,
        artifacts: Seq<ArtifactRefView>,
    },
    HelpNeeded {
        identity: Option<RequestIdentityView>,
        summary: Seq<char>,
        requested_action: Seq<char>,
        evidence: Seq<ArtifactRefView>,
    },
    DecisionNeeded {
        identity: Option<RequestIdentityView>,
        summary: Seq<char>,
        choices: Seq<Seq<char>>,
        recommendation: Option<Seq<char>>,
        evidence: Seq<ArtifactRefView>,
    },
    Blocked {
        identity: Option<RequestIdentityView>,
        summary: Seq<char>,
        requested_action: Seq<char>,
        evidence: Seq<ArtifactRefView>,
    },
    Checkpoint {
        summary: Seq<char>,
        artifacts: Seq<ArtifactRefView>,
    },
    ReviewRequested {
        identity: Option<RequestIdentityView>,
        summary: Seq<char>,
        requested_action: Seq<char>,
        known_risk: Seq<char>,
        evidence: Seq<ArtifactRefView>,
    },
    Done {
        summary: Seq<char>,
        evidence: Seq<ArtifactRefView>,
    },
}

impl View for Signal {
    type V = SignalView;

    open spec fn view(&self) -> SignalView {
        match self {
            Signal::Working { summary } => SignalView::Working {
                summary: summary.deep_view(),
            },
            Signal::Finding { summary, artifacts } => SignalView::Finding {
                summary: summary.deep_view(),
                artifacts: artifacts.deep_view(),
            },
            Signal::Offering { summary, artifacts } => SignalView::Offering {
                summary: summary.deep_view(),
                artifacts: artifacts.deep_view(),
            },
            Signal::HelpNeeded { identity, summary, requested_action, evidence } => SignalView::HelpNeeded {
                identity: identity.deep_view(),
                summary: summary.deep_view(),
                requested_action: requested_action.deep_view(),
                evidence: evidence.deep_view(),
            },
            Signal::DecisionNeeded { identity, summary, choices, recommendation, evidence } => SignalView::DecisionNeeded {
                identity: identity.deep_view(),
                summary: summary.deep_view(),
                choices: choices.deep_view(),
                recommendation: recommendation.deep_view(),
                evidence: evidence.deep_view(),
            },
            Signal::Blocked { identity, summary, requested_action, evidence } => SignalView::Blocked {
                identity: identity.deep_view(),
                summary: summary.deep_view(),
                requested_action: requested_action.deep_view(),
                evidence: evidence.deep_view(),
            },
            Signal::Checkpoint { summary, artifacts } => SignalView::Checkpoint {
                summary: summary.deep_view(),
                artifacts: artifacts.deep_view(),
            },
            Signal::ReviewRequested { identity, summary, requested_action, known_risk, evidence } => SignalView::ReviewRequested {
                identity: identity.deep_view(),
                summary: summary.deep_view(),
                requested_action: requested_action.deep_view(),
                known_risk: known_risk.deep_view(),
                evidence: evidence.deep_view(),
            },
            Signal::Done { summary, evidence } => SignalView::Done {
                summary: summary.deep_view(),
                evidence: evidence.deep_view(),
            },
        }
    }
}

impl DeepView for Signal {
    type V = SignalView;

    open spec fn deep_view(&self) -> SignalView {
        self.view()
    }
}

impl Clone for Signal {
    fn clone(&self) -> (r: Self)
        ensures
            r@ == self@,
    {
        match self {
            Signal::Working { summary } => {
                Signal::Working {
                    summary: summary.clone(),
                }
            },
            Signal::Finding { summary, artifacts } => {
                let copy_artifacts = artifacts.clone();
                assert(copy_artifacts.deep_view() =~= artifacts.deep_view());
                Signal::Finding {
                    summary: summary.clone(),
                    artifacts: copy_artifacts,
                }
            },
            Signal::Offering { summary, artifacts } => {
                let copy_artifacts = artifacts.clone();
                assert(copy_artifacts.deep_view() =~= artifacts.deep_view());
                Signal::Offering {
                    summary: summary.clone(),
                    artifacts: copy_artifacts,
                }
            },
            Signal::HelpNeeded { identity, summary, requested_action, evidence } => {
                let copy_evidence = evidence.clone();
                assert(copy_evidence.deep_view() =~= evidence.deep_view());
                Signal::HelpNeeded {
                    identity: identity.clone(),
                    summary: summary.clone(),
                    requested_action: requested_action.clone(),
                    evidence: copy_evidence,
                }
            },
            Signal::DecisionNeeded { identity, summary, choices, recommendation, evidence } => {
                let copy_choices = choices.clone();
                let copy_evidence = evidence.clone();
                assert(copy_choices.deep_view() =~= choices.deep_view());
                assert(copy_evidence.deep_view() =~= evidence.deep_view());
                Signal::DecisionNeeded {
                    identity: identity.clone(),
                    summary: summary.clone(),
                    choices: copy_choices,
                    recommendation: recommendation.clone(),
                    evidence: copy_evidence,
                }
            },
            Signal::Blocked { identity, summary, requested_action, evidence } => {
                let copy_evidence = evidence.clone();
                assert(copy_evidence.deep_view() =~= evidence.deep_view());
                Signal::Blocked {
                    identity: identity.clone(),
                    summary: summary.clone(),
                    requested_action: requested_action.clone(),
                    evidence: copy_evidence,
                }
            },
            Signal::Checkpoint { summary, artifacts } => {
                let copy_artifacts = artifacts.clone();
                assert(copy_artifacts.deep_view() =~= artifacts.deep_view());
                Signal::Checkpoint {
                    summary: summary.clone(),
                    artifacts: copy_artifacts,
                }
            },
            Signal::ReviewRequested { identity, summary, requested_action, known_risk, evidence } => {
                let copy_evidence = evidence.clone();
                assert(copy_evidence.deep_view() =~= evidence.deep_view());
                Signal::ReviewRequested {
                    identity: identity.clone(),
                    summary: summary.clone(),
                    requested_action: requested_action.clone(),
                    known_risk: known_risk.clone(),
                    evidence: copy_evidence,
                }
            },
            Signal::Done { summary, evidence } => {
                let copy_evidence = evidence.clone();
                assert(copy_evidence.deep_view() =~= evidence.deep_view());
                Signal::Done {
                    summary: summary.clone(),
                    evidence: copy_evidence,
                }
            },
        }
    }
}

impl SignalView {
    /// The identity of the request that the signal makes.
    pub open spec fn request_identity(self) -> Option<RequestIdentityView> {
        match self {
            SignalView::HelpNeeded { identity, .. } => identity,
            SignalView::DecisionNeeded { identity, .. } => identity,
            SignalView::Blocked { identity, .. } => identity,
            SignalView::ReviewRequested { identity, .. } => identity,
            _ => None,
        }
    }
}

impl Signal {
    /// The identity of the request that the signal makes.
    pub fn request_identity(&self) -> (r: Option<&RequestIdentity>)
        ensures
            r.deep_view() == self@.request_identity(),
    {
        match self {
            Signal::HelpNeeded { identity, .. } => identity.as_ref(),
            Signal::DecisionNeeded { identity, .. } => identity.as_ref(),
            Signal::Blocked { identity, .. } => identity.as_ref(),
            Signal::ReviewRequested { identity, .. } => identity.as_ref(),
            _ => None,
        }
    }
}

/// The request that a direction answers.
#[derive(Debug, Eq, PartialEq)]
pub struct DirectionTarget {
    pub request_id: Option<RequestId>,
    pub source_event_id: u128,
    pub participant_id: ParticipantId,
    pub work_id: Option<WorkId>,
}

impl DeepView for DirectionTarget {
    type V = DirectionTarget;

    open spec fn deep_view(&self) -> DirectionTarget {
        *self
    }
}

impl Clone for DirectionTarget {
    fn clone(&self) -> (r: Self)
        ensures
            r == *self,
    {
        DirectionTarget {
            request_id: self.request_id,
            source_event_id: self.source_event_id,
            participant_id: self.participant_id,
            work_id: self.work_id,
        }
    }
}

/// What a caller asks of the runtime.
#[derive(Clone, Debug, Eq, PartialEq)]
pub enum Command {
    DefineWorkspace {
        workspace: Workspace,
    },
    RefreshWorkspaceMetadata {
        workspace: Workspace,
    },
    Join {
        scope: String,
        name: String,
        manifest: EnvironmentManifest,
        lease_seconds: u64,
    },
    RenewPresence {
        participant_id: ParticipantId,
        lease_seconds: u64,
    },
    ClaimWork {
        participant_id: ParticipantId,
        summary: String,
        resources: Vec<String>,
    },
    PublishSignal {
        participant_id: ParticipantId,
        work_id: Option<WorkId>,
        signal: Signal,
    },
    ResolveAttention {
        participant_id: ParticipantId,
        request_id: RequestId,
        summary: String,
    },
    Leave {
        participant_id: ParticipantId,
    },
    Intervene {
        scope: String,
        message: String,
        author: String,
        target: Option<DirectionTarget>,
    },
    DeliverDirections {
        participant_id: ParticipantId,
    },
    ConsumeDirection {
        participant_id: ParticipantId,
        direction_id: DirectionId,
    },
}

/// What [`Command`] stands for.
#[verifier::ext_equal]
pub enum CommandView {
    DefineWorkspace {
        workspace: WorkspaceView,
    },
    RefreshWorkspaceMetadata {
        workspace: WorkspaceView,
    },
    Join {
        scope: Seq<char>,
        name: Seq<char>,
        manifest: EnvironmentManifestView,
        lease_seconds: u64,
    },
    RenewPresence {
        participant_id: ParticipantId,
        lease_seconds: u64,
    },
    ClaimWork {
        participant_id: ParticipantId,
        summary: Seq<char>,
        resources: Seq<Seq<char>>,
    },
    PublishSignal {
        participant_id: ParticipantId,
        work_id: Option<WorkId>,
        signal: SignalView,
    },
    ResolveAttention {
        participant_id: ParticipantId,
        request_id: RequestId,
        summary: Seq<char>,
    },
    Leave {
        participant_id: ParticipantId,
    },
    Intervene {
        scope: Seq<char>,
        message: Seq<char>,
        author: Seq<char>,
        target: Option<DirectionTarget>,
    },
    DeliverDirections {
        participant_id: ParticipantId,
    },
    ConsumeDirection {
        participant_id: ParticipantId,
        direction_id: DirectionId,
    },
}

impl View for Command {
    type V = CommandView;

    open spec fn view(&self) -> CommandView {
        match self {
            Command::DefineWorkspace { workspace } => CommandView::DefineWorkspace {
                workspace: workspace.deep_view(),
            },
            Command::RefreshWorkspaceMetadata { workspace } => CommandView::RefreshWorkspaceMetadata {
                workspace: workspace.deep_view(),
            },
            Command::Join { scope, name, manifest, lease_seconds } => CommandView::Join {
                scope: scope.deep_view(),
                name: name.deep_view(),
                manifest: manifest.deep_view(),
                lease_seconds: *lease_seconds,
            },
            Command::RenewPresence { participant_id, lease_seconds } => CommandView::RenewPresence {
                participant_id: *participant_id,
                lease_seconds: *lease_seconds,
            },
            Command::ClaimWork { participant_id, summary, resources } => CommandView::ClaimWork {
                participant_id: *participant_id,
                summary: summary.deep_view(),
                resources: resources.deep_view(),
            },
            Command::PublishSignal { participant_id, work_id, signal } => CommandView::PublishSignal {
                participant_id: *participant_id,
                work_id: *work_id,
                signal: signal.deep_view(),
            },
            Command::ResolveAttention { participant_id, request_id, summary } => CommandView::ResolveAttention {
                participant_id: *participant_id,
                request_id: *request_id,
                summary: summary.deep_view(),
            },
            Command::Leave { participant_id } => CommandView::Leave {
                participant_id: *participant_id,
            },
            Command::Intervene { scope, message, author, target } => CommandView::Intervene {
                scope: scope.deep_view(),
                message: message.deep_view(),
                author: author.deep_view(),
                target: target.deep_view(),
            },
            Command::DeliverDirections { participant_id } => CommandView::DeliverDirections {
                participant_id: *participant_id,
            },
            Command::ConsumeDirection { participant_id, direction_id } => CommandView::ConsumeDirection {
                participant_id: *participant_id,
                direction_id: *direction_id,
            },
        }
    }
}

impl DeepView for Command {
    type V = CommandView;

    open spec fn deep_view(&self) -> CommandView {
        self.view()
    }
}

/// A claim that stands in the way of another.
#[derive(Debug, Eq, PartialEq)]
pub struct Conflict {
    pub work_id: WorkId,
    pub owner: ParticipantId,
    pub resources: Vec<String>,
    pub summary: String,
}

/// What [`Conflict`] stands for.
#[verifier::ext_equal]
pub struct ConflictView {
    pub work_id: WorkId,
    pub owner: ParticipantId,
    pub resources: Seq<Seq<char>>,
    pub summary: Seq<char>,
}

impl View for Conflict {
    type V = ConflictView;

    open spec fn view(&self) -> ConflictView {
        ConflictView {
            work_id: self.work_id,
            owner: self.owner,
            resources: self.resources.deep_view(),
            summary: self.summary.deep_view(),
        }
    }
}

impl DeepView for Conflict {
    type V = ConflictView;

    open spec fn deep_view(&self) -> ConflictView {
        self.view()
    }
}

impl Clone for Conflict {
    fn clone(&self) -> (r: Self)
        ensures
            r@ == self@,
    {
        let r = Conflict {
            work_id: self.work_id,
            owner: self.owner,
            resources: self.resources.clone(),
            summary: self.summary.clone(),
        };
        assert(r.resources.deep_view() =~= self.resources.deep_view());
        r
    }
}

/// What became of a command.
#[derive(Clone, Debug, Eq, PartialEq)]
pub enum CommandResult {
    Accepted {
        participant_id: Option<ParticipantId>,
        work_id: Option<WorkId>,
        request_id: Option<RequestId>,
        event_sequences: Vec<u64>,
    },
    Conflict {
        conflicts: Vec<Conflict>,
        event_sequences: Vec<u64>,
    },
    Rejected {
        reason: String,
    },
}

/// What [`CommandResult`] stands for.
#[verifier::ext_equal]
pub enum CommandResultView {
    Accepted {
        participant_id: Option<ParticipantId>,
        work_id: Option<WorkId>,
        request_id: Option<RequestId>,
        event_sequences: Seq<u64>,
    },
    Conflict {
        conflicts: Seq<ConflictView>,
        event_sequences: Seq<u64>,
    },
    Rejected {
        reason: Seq<char>,
    },
}

impl View for CommandResult {
    type V = CommandResultView;

    open spec fn view(&self) -> CommandResultView {
        match self {
            CommandResult::Accepted { participant_id, work_id, request_id, event_sequences } => CommandResultView::Accepted {
                participant_id: *participant_id,
                work_id: *work_id,
                request_id: *request_id,
                event_sequences: event_sequences.deep_view(),
            },
            CommandResult::Conflict { conflicts, event_sequences } => CommandResultView::Conflict {
                conflicts: conflicts.deep_view(),
                event_sequences: event_sequences.deep_view(),
            },
            CommandResult::Rejected { reason } => CommandResultView::Rejected {
                reason: reason.deep_view(),
            },
        }
    }
}

impl DeepView for CommandResult {
    type V = CommandResultView;

    open spec fn deep_view(&self) -> CommandResultView {
        self.view()
    }
}

/// A participant present in a scope until its lease ends.
#[derive(Debug, Eq, PartialEq)]
pub struct Participant {
    pub id: ParticipantId,
    pub scope: String,
    pub name: String,
    pub manifest: EnvironmentManifest,
    pub joined_at: Timestamp,
    pub expires_at: Timestamp,
}

/// What [`Participant`] stands for.
#[verifier::ext_equal]
pub struct ParticipantView {
    pub id: ParticipantId,
    pub scope: Seq<char>,
    pub name: Seq<char>,
    pub manifest: EnvironmentManifestView,
    pub joined_at: Timestamp,
    pub expires_at: Timestamp,
}

impl View for Participant {
    type V = ParticipantView;

    open spec fn view(&self) -> ParticipantView {
        ParticipantView {
            id: self.id,
            scope: self.scope.deep_view(),
            name: self.name.deep_view(),
            manifest: self.manifest.deep_view(),
            joined_at: self.joined_at,
            expires_at: self.expires_at,
        }
    }
}

impl DeepView for Participant {
    type V = ParticipantView;

    open spec fn deep_view(&self) -> ParticipantView {
        self.view()
    }
}

impl Clone for Participant {
    fn clone(&self) -> (r: Self)
        ensures
            r@ == self@,
    {
        Participant {
            id: self.id,
            scope: self.scope.clone(),
            name: self.name.clone(),
            manifest: self.manifest.clone(),
            joined_at: self.joined_at,
            expires_at: self.expires_at,
        }
    }
}

/// A claim of work on the resources of a repository.
#[derive(Debug, Eq, PartialEq)]
pub struct WorkClaim {
    pub id: WorkId,
    pub scope: String,
    pub owner: ParticipantId,
    pub summary: String,
    pub resources: Vec<String>,
    pub claimed_at: Timestamp,
}

/// What [`WorkClaim`] stands for.
#[verifier::ext_equal]
pub struct WorkClaimView {
    pub id: WorkId,
    pub scope: Seq<char>,
    pub owner: ParticipantId,
    pub summary: Seq<char>,
    pub resources: Seq<Seq<char>>,
    pub claimed_at: Timestamp,
}

impl View for WorkClaim {
    type V = WorkClaimView;

    open spec fn view(&self) -> WorkClaimView {
        WorkClaimView {
            id: self.id,
            scope: self.scope.deep_view(),
            owner: self.owner,
            summary: self.summary.deep_view(),
            resources: self.resources.deep_view(),
            claimed_at: self.claimed_at,
        }
    }
}

impl DeepView for WorkClaim {
    type V = WorkClaimView;

    open spec fn deep_view(&self) -> WorkClaimView {
        self.view()
    }
}

impl Clone for WorkClaim {
    fn clone(&self) -> (r: Self)
        ensures
            r@ == self@,
    {
        let r = WorkClaim {
            id: self.id,
            scope: self.scope.clone(),
            owner: self.owner,
            summary: self.summary.clone(),
            resources: self.resources.clone(),
            claimed_at: self.claimed_at,
        };
        assert(r.resources.deep_view() =~= self.resources.deep_view());
        r
    }
}

/// A signal with its sender and its time.
#[derive(Debug, Eq, PartialEq)]
pub struct PublishedSignal {
    pub participant_id: ParticipantId,
    pub work_id: Option<WorkId>,
    pub signal: Signal,
    pub published_at: Timestamp,
}

/// What [`PublishedSignal`] stands for.
#[verifier::ext_equal]
pub struct PublishedSignalView {
    pub participant_id: ParticipantId,
    pub work_id: Option<WorkId>,
    pub signal: SignalView,
    pub published_at: Timestamp,
}

impl View for PublishedSignal {
    type V = PublishedSignalView;

    open spec fn view(&self) -> PublishedSignalView {
        PublishedSignalView {
            participant_id: self.participant_id,
            work_id: self.work_id,
            signal: self.signal.deep_view(),
            published_at: self.published_at,
        }
    }
}

impl DeepView for PublishedSignal {
    type V = PublishedSignalView;

    open spec fn deep_view(&self) -> PublishedSignalView {
        self.view()
    }
}

impl Clone for PublishedSignal {
    fn clone(&self) -> (r: Self)
        ensures
            r@ == self@,
    {
        PublishedSignal {
            participant_id: self.participant_id,
            work_id: self.work_id,
            signal: self.signal.clone(),
            published_at: self.published_at,
        }
    }
}

/// The kinds of human attention, the most pressing first.
#[derive(Clone, Copy, Debug, Eq, PartialEq, Structural)]
pub enum AttentionCategory {
    Decision,
    Blocked,
    Help,
    ReadyForReview,
}

impl DeepView for AttentionCategory {
    type V = AttentionCategory;

    open spec fn deep_view(&self) -> AttentionCategory {
        *self
    }
}

/// The states of a request.
#[derive(Clone, Copy, Debug, Eq, PartialEq, Structural)]
pub enum RequestLifecycle {
    Open,
    Resolved,
    Superseded,
    Expired,
}

impl DeepView for RequestLifecycle {
    type V = RequestLifecycle;

    open spec fn deep_view(&self) -> RequestLifecycle {
        *self
    }
}

/// What a human is asked for.
#[derive(Clone, Debug, Eq, PartialEq)]
pub enum AttentionRequest {
    Decision {
        question: String,
        choices: Vec<String>,
        recommendation: Option<String>,
    },
    Intervention {
        blocker: String,
        requested_action: String,
    },
    Review {
        summary: String,
        requested_action: String,
        known_risk: String,
    },
}

/// What [`AttentionRequest`] stands for.
#[verifier::ext_equal]
pub enum AttentionRequestView {
    Decision {
        question: Seq<char>,
        choices: Seq<Seq<char>>,
        recommendation: Option<Seq<char>>,
    },
    Intervention {
        blocker: Seq<char>,
        requested_action: Seq<char>,
    },
    Review {
        summary: Seq<char>,
        requested_action: Seq<char>,
        known_risk: Seq<char>,
    },
}

impl View for AttentionRequest {
    type V = AttentionRequestView;

    open spec fn view(&self) -> AttentionRequestView {
        match self {
            AttentionRequest::Decision { question, choices, recommendation } => AttentionRequestView::Decision {
                question: question.deep_view(),
                choices: choices.deep_view(),
                recommendation: recommendation.deep_view(),
            },
            AttentionRequest::Intervention { blocker, requested_action } => AttentionRequestView::Intervention {
                blocker: blocker.deep_view(),
                requested_action: requested_action.deep_view(),
            },
            AttentionRequest::Review { summary, requested_action, known_risk } => AttentionRequestView::Review {
                summary: summary.deep_view(),
                requested_action: requested_action.deep_view(),
                known_risk: known_risk.deep_view(),
            },
        }
    }
}

impl DeepView for AttentionRequest {
    type V = AttentionRequestView;

    open spec fn deep_view(&self) -> AttentionRequestView {
        self.view()
    }
}

/// Where an answer to a request belongs.
#[derive(Clone, Debug, Eq, PartialEq)]
pub struct AttentionTarget {
    pub scope: String,
    pub event_id: u128,
}

/// What [`AttentionTarget`] stands for.
#[verifier::ext_equal]
pub struct AttentionTargetView {
    pub scope: Seq<char>,
    pub event_id: u128,
}

impl View for AttentionTarget {
    type V = AttentionTargetView;

    open spec fn view(&self) -> AttentionTargetView {
        AttentionTargetView {
            scope: self.scope.deep_view(),
            event_id: self.event_id,
        }
    }
}

impl DeepView for AttentionTarget {
    type V = AttentionTargetView;

    open spec fn deep_view(&self) -> AttentionTargetView {
        self.view()
    }
}

/// An open request for human attention.
#[derive(Clone, Debug, Eq, PartialEq)]
pub struct AttentionItem {
    pub request_id: RequestId,
    pub request_key: String,
    pub source_scope: String,
    pub source_event_id: u128,
    pub work_id: Option<WorkId>,
    pub participant_id: ParticipantId,
    pub category: AttentionCategory,
    pub created_at: Timestamp,
    pub lifecycle: RequestLifecycle,
    pub request: AttentionRequest,
    pub evidence: Vec<ArtifactRef>,
    pub target: AttentionTarget,
}

/// What [`AttentionItem`] stands for.
#[verifier::ext_equal]
pub struct AttentionItemView {
    pub request_id: RequestId,
    pub request_key: Seq<char>,
    pub source_scope: Seq<char>,
    pub source_event_id: u128,
    pub work_id: Option<WorkId>,
    pub participant_id: ParticipantId,
    pub category: AttentionCategory,
    pub created_at: Timestamp,
    pub lifecycle: RequestLifecycle,
    pub request: AttentionRequestView,
    pub evidence: Seq<ArtifactRefView>,
    pub target: AttentionTargetView,
}

impl View for AttentionItem {
    type V = AttentionItemView;

    open spec fn view(&self) -> AttentionItemView {
        AttentionItemView {
            request_id: self.request_id,
            request_key: self.request_key.deep_view(),
            source_scope: self.source_scope.deep_view(),
            source_event_id: self.source_event_id,
            work_id: self.work_id,
            participant_id: self.participant_id,
            category: self.category,
            created_at: self.created_at,
            lifecycle: self.lifecycle,
            request: self.request.deep_view(),
            evidence: self.evidence.deep_view(),
            target: self.target.deep_view(),
        }
    }
}

impl DeepView for AttentionItem {
    type V = AttentionItemView;

    open spec fn deep_view(&self) -> AttentionItemView {
        self.view()
    }
}

/// The delivery of a direction to one participant.
#[derive(Debug, Eq, PartialEq)]
pub struct DirectionDelivery {
    pub participant_id: ParticipantId,
    pub delivered_at: Timestamp,
    pub consumed_at: Option<Timestamp>,
}

impl DeepView for DirectionDelivery {
    type V = DirectionDelivery;

    open spec fn deep_view(&self) -> DirectionDelivery {
        *self
    }
}

impl Clone for DirectionDelivery {
    fn clone(&self) -> (r: Self)
        ensures
            r == *self,
    {
        DirectionDelivery {
            participant_id: self.participant_id,
            delivered_at: self.delivered_at,
            consumed_at: self.consumed_at,
        }
    }
}

/// A human direction.
#[derive(Debug, Eq, PartialEq)]
pub struct Direction {
    pub id: DirectionId,
    pub scope: String,
    pub message: String,
    pub author: String,
    pub created_at: Timestamp,
    /// `None` is an explicit workspace broadcast.
    pub target: Option<DirectionTarget>,
    pub deliveries: Vec<DirectionDelivery>,
}

/// What [`Direction`] stands for.
#[verifier::ext_equal]
pub struct DirectionView {
    pub id: DirectionId,
    pub scope: Seq<char>,
    pub message: Seq<char>,
    pub author: Seq<char>,
    pub created_at: Timestamp,
    pub target: Option<DirectionTarget>,
    pub deliveries: Seq<DirectionDelivery>,
}

impl View for Direction {
    type V = DirectionView;

    open spec fn view(&self) -> DirectionView {
        DirectionView {
            id: self.id,
            scope: self.scope.deep_view(),
            message: self.message.deep_view(),
            author: self.author.deep_view(),
            created_at: self.created_at,
            target: self.target.deep_view(),
            deliveries: self.deliveries.deep_view(),
        }
    }
}

impl DeepView for Direction {
    type V = DirectionView;

    open spec fn deep_view(&self) -> DirectionView {
        self.view()
    }
}

impl Clone for Direction {
    fn clone(&self) -> (r: Self)
        ensures
            r@ == self@,
    {
        let r = Direction {
            id: self.id,
            scope: self.scope.clone(),
            message: self.message.clone(),
            author: self.author.clone(),
            created_at: self.created_at,
            target: self.target.clone(),
            deliveries: self.deliveries.clone(),
        };
        assert(r.deliveries.deep_view() =~= self.deliveries.deep_view());
        r
    }
}

/// Why a participant left.
#[derive(Clone, Copy, Debug, Eq, PartialEq, Structural)]
pub enum LeaveReason {
    Graceful,
    LeaseExpired,
}

impl DeepView for LeaveReason {
    type V = LeaveReason;

    open spec fn deep_view(&self) -> LeaveReason {
        *self
    }
}

/// Why work was released.
#[derive(Clone, Copy, Debug, Eq, PartialEq, Structural)]
pub enum ReleaseReason {
    Completed,
    ParticipantLeft,
    LeaseExpired,
}

impl DeepView for ReleaseReason {
    type V = ReleaseReason;

    open spec fn deep_view(&self) -> ReleaseReason {
        *self
    }
}

/// What happened.
#[derive(Clone, Debug, Eq, PartialEq)]
#[allow(inconsistent_fields)]
pub enum EventKind {
    WorkspaceDefined {
        workspace: Workspace,
    },
    WorkspaceMetadataUpdated {
        workspace: Workspace,
    },
    ParticipantJoined {
        participant: Participant,
    },
    PresenceRenewed {
        participant_id: ParticipantId,
        expires_at: Timestamp,
    },
    ParticipantLeft {
        participant_id: ParticipantId,
        reason: LeaveReason,
    },
    WorkClaimed {
        work: WorkClaim,
    },
    OverlapDetected {
        attempted_by: ParticipantId,
        attempted_resources: Vec<String>,
        conflicts: Vec<Conflict>,
    },
    WorkReleased {
        work_id: WorkId,
        previous_owner: ParticipantId,
        reason: ReleaseReason,
    },
    SignalPublished {
        published: PublishedSignal,
    },
    AttentionResolved {
        request_id: RequestId,
        participant_id: ParticipantId,
        summary: String,
        resolved_at: Timestamp,
    },
    HumanIntervened {
        message: String,
    },
    DirectionIssued {
        direction: Direction,
    },
    DirectionDelivered {
        direction_id: DirectionId,
        participant_id: ParticipantId,
        delivered_at: Timestamp,
    },
    DirectionConsumed {
        direction_id: DirectionId,
        participant_id: ParticipantId,
        consumed_at: Timestamp,
    },
}

/// What [`EventKind`] stands for.
#[verifier::ext_equal]
#[allow(inconsistent_fields)]
pub enum EventKindView {
    WorkspaceDefined {
        workspace: WorkspaceView,
    },
    WorkspaceMetadataUpdated {
        workspace: WorkspaceView,
    },
    ParticipantJoined {
        participant: ParticipantView,
    },
    PresenceRenewed {
        participant_id: ParticipantId,
        expires_at: Timestamp,
    },
    ParticipantLeft {
        participant_id: ParticipantId,
        reason: LeaveReason,
    },
    WorkClaimed {
        work: WorkClaimView,
    },
    OverlapDetected {
        attempted_by: ParticipantId,
        attempted_resources: Seq<Seq<char>>,
        conflicts: Seq<ConflictView>,
    },
    WorkReleased {
        work_id: WorkId,
        previous_owner: ParticipantId,
        reason: ReleaseReason,
    },
    SignalPublished {
        published: PublishedSignalView,
    },
    AttentionResolved {
        request_id: RequestId,
        participant_id: ParticipantId,
        summary: Seq<char>,
        resolved_at: Timestamp,
    },
    HumanIntervened {
        message: Seq<char>,
    },
    DirectionIssued {
        direction: DirectionView,
    },
    DirectionDelivered {
        direction_id: DirectionId,
        participant_id: ParticipantId,
        delivered_at: Timestamp,
    },
    DirectionConsumed {
        direction_id: DirectionId,
        participant_id: ParticipantId,
        consumed_at: Timestamp,
    },
}

impl View for EventKind {
    type V = EventKindView;

    open spec fn view(&self) -> EventKindView {
        match self {
            EventKind::WorkspaceDefined { workspace } => EventKindView::WorkspaceDefined {
                workspace: workspace.deep_view(),
            },
            EventKind::WorkspaceMetadataUpdated { workspace } => EventKindView::WorkspaceMetadataUpdated {
                workspace: workspace.deep_view(),
            },
            EventKind::ParticipantJoined { participant } => EventKindView::ParticipantJoined {
                participant: participant.deep_view(),
            },
            EventKind::PresenceRenewed { participant_id, expires_at } => EventKindView::PresenceRenewed {
                participant_id: *participant_id,
                expires_at: *expires_at,
            },
            EventKind::ParticipantLeft { participant_id, reason } => EventKindView::ParticipantLeft {
                participant_id: *participant_id,
                reason: *reason,
            },
            EventKind::WorkClaimed { work } => EventKindView::WorkClaimed {
                work: work.deep_view(),
            },
            EventKind::OverlapDetected { attempted_by, attempted_resources, conflicts } => EventKindView::OverlapDetected {
                attempted_by: *attempted_by,
                attempted_resources: attempted_resources.deep_view(),
                conflicts: conflicts.deep_view(),
            },
            EventKind::WorkReleased { work_id, previous_owner, reason } => EventKindView::WorkReleased {
                work_id: *work_id,
                previous_owner: *previous_owner,
                reason: *reason,
            },
            EventKind::SignalPublished { published } => EventKindView::SignalPublished {
                published: published.deep_view(),
            },
            EventKind::AttentionResolved { request_id, participant_id, summary, resolved_at } => EventKindView::AttentionResolved {
                request_id: *request_id,
                participant_id: *participant_id,
                summary: summary.deep_view(),
                resolved_at: *resolved_at,
            },
            EventKind::HumanIntervened { message } => EventKindView::HumanIntervened {
                message: message.deep_view(),
            },
            EventKind::DirectionIssued { direction } => EventKindView::DirectionIssued {
                direction: direction.deep_view(),
            },
            EventKind::DirectionDelivered { direction_id, participant_id, delivered_at } => EventKindView::DirectionDelivered {
                direction_id: *direction_id,
                participant_id: *participant_id,
                delivered_at: *delivered_at,
            },
            EventKind::DirectionConsumed { direction_id, participant_id, consumed_at } => EventKindView::DirectionConsumed {
                direction_id: *direction_id,
                participant_id: *participant_id,
                consumed_at: *consumed_at,
            },
        }
    }
}

impl DeepView for EventKind {
    type V = EventKindView;

    open spec fn deep_view(&self) -> EventKindView {
        self.view()
    }
}

/// An event with its place in the log.
#[derive(Clone, Debug, Eq, PartialEq)]
pub struct EventEnvelope {
    pub sequence: u64,
    pub event_id: u128,
    pub scope: String,
    pub emitted_at: Timestamp,
    pub event: EventKind,
}

/// What [`EventEnvelope`] stands for.
#[verifier::ext_equal]
pub struct EventEnvelopeView {
    pub sequence: u64,
    pub event_id: u128,
    pub scope: Seq<char>,
    pub emitted_at: Timestamp,
    pub event: EventKindView,
}

impl View for EventEnvelope {
    type V = EventEnvelopeView;

    open spec fn view(&self) -> EventEnvelopeView {
        EventEnvelopeView {
            sequence: self.sequence,
            event_id: self.event_id,
            scope: self.scope.deep_view(),
            emitted_at: self.emitted_at,
            event: self.event.deep_view(),
        }
    }
}

impl DeepView for EventEnvelope {
    type V = EventEnvelopeView;

    open spec fn deep_view(&self) -> EventEnvelopeView {
        self.view()
    }
}

/// What coordination has done in a scope.
#[derive(Debug, Eq, PartialEq)]
pub struct CoordinationMetrics {
    pub prevented_overlaps: u64,
    pub human_interventions: u64,
}

impl DeepView for CoordinationMetrics {
    type V = CoordinationMetrics;

    open spec fn deep_view(&self) -> CoordinationMetrics {
        *self
    }
}

impl Clone for CoordinationMetrics {
    fn clone(&self) -> (r: Self)
        ensures
            r == *self,
    {
        CoordinationMetrics {
            prevented_overlaps: self.prevented_overlaps,
            human_interventions: self.human_interventions,
        }
    }
}

/// All that is known of a scope.
#[derive(Clone, Debug, Eq, PartialEq)]
pub struct ScopeSnapshot {
    pub scope: String,
    pub workspace: Option<Workspace>,
    pub participants: Vec<Participant>,
    pub active_work: Vec<WorkClaim>,
    pub signals: Vec<PublishedSignal>,
    pub attention: Vec<AttentionItem>,
    pub metrics: CoordinationMetrics,
    pub last_sequence: u64,
}

/// What [`ScopeSnapshot`] stands for.
#[verifier::ext_equal]
pub struct ScopeSnapshotView {
    pub scope: Seq<char>,
    pub workspace: Option<WorkspaceView>,
    pub participants: Seq<ParticipantView>,
    pub active_work: Seq<WorkClaimView>,
    pub signals: Seq<PublishedSignalView>,
    pub attention: Seq<AttentionItemView>,
    pub metrics: CoordinationMetrics,
    pub last_sequence: u64,
}

impl View for ScopeSnapshot {
    type V = ScopeSnapshotView;

    open spec fn view(&self) -> ScopeSnapshotView {
        ScopeSnapshotView {
            scope: self.scope.deep_view(),
            workspace: self.workspace.deep_view(),
            participants: self.participants.deep_view(),
            active_work: self.active_work.deep_view(),
            signals: self.signals.deep_view(),
            attention: self.attention.deep_view(),
            metrics: self.metrics.deep_view(),
            last_sequence: self.last_sequence,
        }
    }
}

impl DeepView for ScopeSnapshot {
    type V = ScopeSnapshotView;

    open spec fn deep_view(&self) -> ScopeSnapshotView {
        self.view()
    }
}

/// The states of a workspace.
#[derive(Clone, Copy, Debug, Eq, PartialEq, Structural)]
pub enum WorkspaceLifecycle {
    Active,
    Completed,
    Idle,
}

impl DeepView for WorkspaceLifecycle {
    type V = WorkspaceLifecycle;

    open spec fn deep_view(&self) -> WorkspaceLifecycle {
        *self
    }
}

/// A workspace in a line.
#[derive(Clone, Debug, Eq, PartialEq)]
pub struct WorkspaceSummary {
    pub scope: String,
    pub title: Option<String>,
    pub lifecycle: WorkspaceLifecycle,
    pub active_participants: usize,
    pub active_work: usize,
    pub last_sequence: u64,
}

/// What [`WorkspaceSummary`] stands for.
#[verifier::ext_equal]
pub struct WorkspaceSummaryView {
    pub scope: Seq<char>,
    pub title: Option<Seq<char>>,
    pub lifecycle: WorkspaceLifecycle,
    pub active_participants: usize,
    pub active_work: usize,
    pub last_sequence: u64,
}

impl View for WorkspaceSummary {
    type V = WorkspaceSummaryView;

    open spec fn view(&self) -> WorkspaceSummaryView {
        WorkspaceSummaryView {
            scope: self.scope.deep_view(),
            title: self.title.deep_view(),
            lifecycle: self.lifecycle,
            active_participants: self.active_participants,
            active_work: self.active_work,
            last_sequence: self.last_sequence,
        }
    }
}

impl DeepView for WorkspaceSummary {
    type V = WorkspaceSummaryView;

    open spec fn deep_view(&self) -> WorkspaceSummaryView {
        self.view()
    }
}

} // verus!
