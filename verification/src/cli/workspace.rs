//! Workspaces from Linear issues.
use vstd::prelude::*;

use crate::bootstrap;
use crate::bootstrap::{RepositoryContext, RepositoryContextView};
use crate::cli::{CliError, CliErrorView};
use crate::outcome;
use crate::protocol::{
    Command, CommandView, LinearMetadata, LinearMetadataView, Workspace, WorkspaceView,
};
use crate::text;
use crate::time::Timestamp;

verus! {

/// An issue as Linear describes it.
#[derive(Clone, Debug, Eq, PartialEq)]
pub struct LinearAnswer {
    pub identifier: String,
    pub title: String,
    pub url: String,
    pub description: Option<String>,
    pub status: String,
    pub updated_at: Timestamp,
}

/// What [`LinearAnswer`] stands for.
#[verifier::ext_equal]
pub struct LinearAnswerView {
    pub identifier: Seq<char>,
    pub title: Seq<char>,
    pub url: Seq<char>,
    pub description: Option<Seq<char>>,
    pub status: Seq<char>,
    pub updated_at: Timestamp,
}

impl View for LinearAnswer {
    type V = LinearAnswerView;

    open spec fn view(&self) -> LinearAnswerView {
        LinearAnswerView {
            identifier: self.identifier.deep_view(),
            title: self.title.deep_view(),
            url: self.url.deep_view(),
            description: self.description.deep_view(),
            status: self.status.deep_view(),
            updated_at: self.updated_at,
        }
    }
}

impl DeepView for LinearAnswer {
    type V = LinearAnswerView;

    open spec fn deep_view(&self) -> LinearAnswerView {
        self.view()
    }
}

/// What Linear says of an issue: the issue, or the reasons why not, or that it was not found.
pub open spec fn linear_said(
    identifier: Seq<char>,
    issue: Option<LinearAnswerView>,
    errors: Seq<Seq<char>>,
) -> Result<LinearAnswerView, CliErrorView> {
    let reason = text::joined(errors, "; "@);
    match issue {
        Some(issue) => Ok(issue),
        None => if reason.len() == 0 {
            Err(CliErrorView::Linear("issue "@ + identifier + " was not found"@))
        } else {
            Err(CliErrorView::Linear(reason))
        },
    }
}

/// What Linear says of an issue.
pub fn linear_outcome(
    identifier: &str,
    issue: Option<LinearAnswer>,
    errors: &Vec<String>,
) -> (r: Result<LinearAnswer, CliError>)
    ensures
        outcome::seen(r) == linear_said(identifier@, issue.deep_view(), errors.deep_view()),
{
    if let Some(issue) = issue {
        return Ok(issue);
    }
    let reason = text::join(errors, "; ");
    proof {
        reveal_strlit("");
        assert(""@ == Seq::<char>::empty());
    }
    if text::same(reason.as_str(), "") {
        let found = text::concat("issue ", identifier);
        Err(CliError::Linear(text::concat(found.as_str(), " was not found")))
    } else {
        assert(reason@.len() > 0) by {
            if reason@.len() == 0 {
                assert(reason@ =~= Seq::<char>::empty());
            }
        }
        Err(CliError::Linear(reason))
    }
}

/// What to do so that the workspace of an issue exists and is current.
#[derive(Clone, Debug)]
pub enum WorkspacePlan {
    /// The workspace is known, and Linear cannot be asked.
    Keep(Workspace),
    /// The command defines or refreshes the workspace.
    Send { command: Command, workspace: Workspace },
}

/// What [`WorkspacePlan`] stands for.
#[verifier::ext_equal]
pub enum WorkspacePlanView {
    Keep(WorkspaceView),
    Send { command: CommandView, workspace: WorkspaceView },
}

impl DeepView for WorkspacePlan {
    type V = WorkspacePlanView;

    open spec fn deep_view(&self) -> WorkspacePlanView {
        match self {
            WorkspacePlan::Keep(workspace) => WorkspacePlanView::Keep(workspace@),
            WorkspacePlan::Send { command, workspace } => WorkspacePlanView::Send {
                command: command@,
                workspace: workspace@,
            },
        }
    }
}

/// The workspace of an issue as Linear describes it.
pub open spec fn described(
    issue: LinearAnswerView,
    repository: RepositoryContextView,
) -> WorkspaceView {
    bootstrap::issue_workspace(
        issue.identifier,
        issue.title,
        issue.url,
        issue.description,
        Some(LinearMetadataView { status: issue.status, updated_at: issue.updated_at }),
        repository,
    )
}

/// What to do, from the workspace that is known and from what Linear said: a known workspace is
/// kept where there is no key for Linear, otherwise refreshed in its own repository; an unknown one
/// is defined.
pub open spec fn planned(
    cached: Option<WorkspaceView>,
    resolved: Result<LinearAnswerView, CliErrorView>,
    repository: RepositoryContextView,
) -> Result<WorkspacePlanView, CliErrorView> {
    match (resolved, cached) {
        (Ok(issue), Some(known)) => {
            let workspace = WorkspaceView {
                repository: known.repository,
                ..described(issue, repository)
            };
            Ok(
                WorkspacePlanView::Send {
                    command: CommandView::RefreshWorkspaceMetadata { workspace },
                    workspace,
                },
            )
        },
        (Ok(issue), None) => {
            let workspace = described(issue, repository);
            Ok(
                WorkspacePlanView::Send {
                    command: CommandView::DefineWorkspace { workspace },
                    workspace,
                },
            )
        },
        (Err(CliErrorView::MissingLinearApiKey), Some(known)) => Ok(WorkspacePlanView::Keep(known)),
        (Err(error), _) => Err(error),
    }
}

/// What to do so that the workspace of an issue exists and is current.
pub fn plan_workspace(
    cached: Option<Workspace>,
    resolved: Result<LinearAnswer, CliError>,
    repository: &RepositoryContext,
) -> (r: Result<WorkspacePlan, CliError>)
    ensures
        outcome::seen(r) == planned(cached.deep_view(), outcome::seen(resolved), repository@),
{
    let issue = match resolved {
        Ok(issue) => issue,
        Err(error) => {
            if let CliError::MissingLinearApiKey = error {
                if let Some(known) = cached {
                    return Ok(WorkspacePlan::Keep(known));
                }
            }
            return Err(error);
        },
    };
    let mut workspace = bootstrap::workspace_from_issue(
        issue.identifier,
        issue.title,
        issue.url,
        issue.description,
        Some(LinearMetadata { status: issue.status, updated_at: issue.updated_at }),
        repository,
    );
    match cached {
        Some(known) => {
            workspace.repository = known.repository;
            let sent = workspace.clone();
            Ok(
                WorkspacePlan::Send {
                    command: Command::RefreshWorkspaceMetadata { workspace: sent },
                    workspace,
                },
            )
        },
        None => {
            let sent = workspace.clone();
            Ok(
                WorkspacePlan::Send {
                    command: Command::DefineWorkspace { workspace: sent },
                    workspace,
                },
            )
        },
    }
}

/// A workspace that is known needs no key for Linear: it is kept as it is.
pub proof fn known_workspaces_need_no_key(known: WorkspaceView, repository: RepositoryContextView)
    ensures
        planned(Some(known), Err(CliErrorView::MissingLinearApiKey), repository) == Ok::<
            WorkspacePlanView,
            CliErrorView,
        >(WorkspacePlanView::Keep(known)),
{
}

} // verus!
