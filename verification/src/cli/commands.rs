//! From the arguments of the command line to commands, and from answers to what is printed.
use vstd::prelude::*;

use crate::bootstrap::{DaemonDisposition, RepositoryContext};
use crate::cli::{CliError, CliErrorView};
use crate::identity;
use crate::outcome;
use crate::protocol::{
    Command, CommandResult, CommandResultView, CommandView, DirectionTarget, LinearIssue,
    LinearIssueView, ParticipantId, RepositoryRef, RepositoryRefView, RequestId, WorkId, Workspace,
    WorkspaceView,
};
use crate::text;

verus! {

/// Whether a command was accepted, and if not, why.
pub open spec fn success_of(result: CommandResultView) -> Result<(), CliErrorView> {
    match result {
        CommandResultView::Accepted { .. } => Ok(()),
        CommandResultView::Conflict { .. } => Err(
            CliErrorView::Rejected("overlapping resources are already claimed"@),
        ),
        CommandResultView::Rejected { reason } => Err(CliErrorView::Rejected(reason)),
    }
}

/// Whether a command was accepted, and if not, why.
pub fn command_succeeded(result: CommandResult) -> (r: Result<(), CliError>)
    ensures
        outcome::seen(r) == success_of(result@),
{
    match result {
        CommandResult::Accepted { .. } => Ok(()),
        CommandResult::Conflict { .. } => Err(
            CliError::Rejected("overlapping resources are already claimed".to_owned()),
        ),
        CommandResult::Rejected { reason } => Err(CliError::Rejected(reason)),
    }
}

/// What a claim prints where only its identity is asked for: the identity of the work, where it
/// was granted.
pub fn claimed_id(result: &CommandResult, id_only: bool) -> (r: Option<String>)
    ensures
        r.deep_view() == (match result@ {
            CommandResultView::Accepted { work_id: Some(work_id), .. } => if id_only {
                Some(identity::uuid_text(work_id.0))
            } else {
                None
            },
            _ => None,
        }),
{
    if !id_only {
        return None;
    }
    match result {
        CommandResult::Accepted { work_id, .. } => match work_id {
            Some(work_id) => Some(work_id.to_text()),
            None => None,
        },
        _ => None,
    }
}

/// The target of a direction: there is one where a source event is given.
pub open spec fn target_of(
    source_event: Option<u128>,
    request_id: Option<RequestId>,
    participant: Option<ParticipantId>,
    work: Option<WorkId>,
) -> Option<DirectionTarget> {
    match source_event {
        Some(source_event_id) => Some(
            DirectionTarget {
                request_id,
                source_event_id,
                participant_id: participant->0,
                work_id: work,
            },
        ),
        None => None,
    }
}

/// The command that publishes a human direction. A source event comes with its participant.
pub fn intervene_command(
    scope: String,
    message: String,
    author: String,
    source_event: Option<u128>,
    request_id: Option<RequestId>,
    participant: Option<ParticipantId>,
    work: Option<WorkId>,
) -> (r: Command)
    requires
        source_event is Some ==> participant is Some,
    ensures
        r@ == (CommandView::Intervene {
            scope: scope@,
            message: message@,
            author: author@,
            target: target_of(source_event, request_id, participant, work),
        }),
{
    let target: Option<DirectionTarget> = match (source_event, participant) {
        (Some(source_event_id), Some(participant_id)) => Some(
            DirectionTarget { request_id, source_event_id, participant_id, work_id: work },
        ),
        _ => None,
    };
    Command::Intervene { scope, message, author, target }
}

/// The command that creates the workspace of an issue. A revision counts only with a repository.
pub fn workspace_command(
    issue: String,
    title: String,
    objective: String,
    url: Option<String>,
    repository: Option<String>,
    revision: Option<String>,
) -> (r: Command)
    ensures
        r@ == (CommandView::DefineWorkspace {
            workspace: WorkspaceView {
                scope: "linear:"@ + issue@,
                title: title@,
                objective: objective@,
                linear_issue: LinearIssueView {
                    identifier: issue@,
                    url: url.deep_view(),
                    metadata: None,
                },
                repository: match repository.deep_view() {
                    Some(repository) => Some(
                        RepositoryRefView { repository, revision: revision.deep_view() },
                    ),
                    None => None,
                },
            },
        }),
{
    let scope = text::concat("linear:", issue.as_str());
    let repository: Option<RepositoryRef> = match repository {
        Some(repository) => Some(RepositoryRef { repository, revision }),
        None => None,
    };
    Command::DefineWorkspace {
        workspace: Workspace {
            scope,
            title,
            objective,
            linear_issue: LinearIssue { identifier: issue, url, metadata: None },
            repository,
        },
    }
}

/// The scope that a command names: an explicit one first, then one from the environment that is
/// not blank; none where the selection of the checkout counts.
pub open spec fn scope_named(
    explicit: Option<Seq<char>>,
    environment: Option<Seq<char>>,
) -> Option<Seq<char>> {
    if explicit is Some {
        explicit
    } else if environment is Some && !text::is_blank(environment->0) {
        environment
    } else {
        None
    }
}

/// The scope that a command names; none where the selection of the checkout counts.
pub fn selected_scope(explicit: Option<String>, environment: Option<String>) -> (r: Option<String>)
    ensures
        r.deep_view() == scope_named(explicit.deep_view(), environment.deep_view()),
{
    if explicit.is_some() {
        return explicit;
    }
    match environment {
        Some(scope) => if text::blank(scope.as_str()) {
            None
        } else {
            Some(scope)
        },
        None => None,
    }
}

/// The endpoint that a client speaks to, without trailing slashes.
pub fn client_endpoint(endpoint: &str) -> (r: String)
    ensures
        r@ == text::without_suffixes(endpoint@, "/"@),
{
    proof {
        reveal_strlit("/");
    }
    text::trim_suffixes(endpoint, "/")
}

/// What became of the daemon, in a word.
pub open spec fn daemon_label(disposition: DaemonDisposition) -> Seq<char> {
    match disposition {
        DaemonDisposition::OwnedCompatible => "reused"@,
        _ => "started"@,
    }
}

/// What bringing a repository online prints.
pub open spec fn up_lines(
    repository: Seq<char>,
    disposition: DaemonDisposition,
    address: Seq<char>,
    workspace: Option<WorkspaceView>,
) -> Seq<Seq<char>> {
    let start = seq![
        "\nCLARITY\n"@,
        "Repository  "@ + repository,
        "Daemon      "@ + daemon_label(disposition) + " at "@ + address,
    ];
    let middle = match workspace {
        Some(workspace) => seq![
            "Workspace   "@ + workspace.linear_issue.identifier + " · "@ + workspace.title
                + " (compatibility selection)"@,
            "\n`clarity up TG-*` is deprecated; use `clarity run amp TG-*`."@,
        ],
        None => Seq::empty(),
    };
    start + middle + seq!["\nRun an agent task:\n  clarity run amp TG-187"@]
}

/// What bringing a repository online prints, line by line. A foreign daemon is never brought
/// online.
pub fn up_report(
    repository: &RepositoryContext,
    disposition: DaemonDisposition,
    address: &str,
    workspace: Option<&Workspace>,
) -> (r: Vec<String>)
    requires
        !(disposition is Foreign),
    ensures
        r.deep_view() == up_lines(repository@.identity, disposition, address@, workspace.deep_view()),
{
    let label = match disposition {
        DaemonDisposition::OwnedCompatible => "reused",
        _ => "started",
    };
    let daemon = text::concat("Daemon      ", label);
    let daemon = text::concat(daemon.as_str(), " at ");
    let mut lines: Vec<String> = Vec::new();
    lines.push("\nCLARITY\n".to_owned());
    lines.push(text::concat("Repository  ", repository.identity.as_str()));
    lines.push(text::concat(daemon.as_str(), address));
    let ghost start = lines.deep_view();
    if let Some(workspace) = workspace {
        let mut line = text::concat("Workspace   ", workspace.linear_issue.identifier.as_str());
        line = text::concat(line.as_str(), " · ");
        line = text::concat(line.as_str(), workspace.title.as_str());
        lines.push(text::concat(line.as_str(), " (compatibility selection)"));
        lines.push("\n`clarity up TG-*` is deprecated; use `clarity run amp TG-*`.".to_owned());
    }
    lines.push("\nRun an agent task:\n  clarity run amp TG-187".to_owned());
    assert(lines.deep_view() =~= up_lines(
        repository@.identity,
        disposition,
        address@,
        workspace.deep_view(),
    ));
    lines
}

/// An explicit scope counts before the environment, and the environment before the selection of
/// the checkout; a blank environment does not count.
pub proof fn scopes_have_precedence(explicit: Option<Seq<char>>, environment: Option<Seq<char>>)
    ensures
        explicit is Some ==> scope_named(explicit, environment) == explicit,
        explicit is None && environment is Some && !text::is_blank(environment->0) ==> scope_named(
            explicit,
            environment,
        ) == environment,
        explicit is None && (environment is None || text::is_blank(environment->0)) ==> scope_named(
            explicit,
            environment,
        ) is None,
{
}

} // verus!
