//! Sessions: a process that takes part for as long as it runs.
use vstd::prelude::*;

use crate::bootstrap::{RepositoryContext, RepositoryContextView};
use crate::cli::arguments::AgentHarness;
use crate::cli::{CliError, CliErrorView};
use crate::identity;
use crate::outcome;
use crate::protocol::{
    Command, CommandResult, CommandResultView, CommandView, EnvironmentManifest,
    EnvironmentManifestView, ParticipantId,
};

verus! {

/// The lease of an agent's session.
pub const AGENT_LEASE_SECONDS: u64 = 15;

/// The session in which an agent runs.
#[derive(Clone, Debug, Eq, PartialEq)]
pub struct AgentSession {
    pub name: String,
    pub manifest: EnvironmentManifest,
    pub lease_seconds: u64,
    pub child: Vec<String>,
}

/// What [`AgentSession`] stands for.
#[verifier::ext_equal]
pub struct AgentSessionView {
    pub name: Seq<char>,
    pub manifest: EnvironmentManifestView,
    pub lease_seconds: u64,
    pub child: Seq<Seq<char>>,
}

impl View for AgentSession {
    type V = AgentSessionView;

    open spec fn view(&self) -> AgentSessionView {
        AgentSessionView {
            name: self.name.deep_view(),
            manifest: self.manifest.deep_view(),
            lease_seconds: self.lease_seconds,
            child: self.child.deep_view(),
        }
    }
}

impl DeepView for AgentSession {
    type V = AgentSessionView;

    open spec fn deep_view(&self) -> AgentSessionView {
        self.view()
    }
}

/// The session in which an agent runs in a repository: the agent's program gets its arguments
/// unchanged.
pub open spec fn agent_session_in(
    harness: AgentHarness,
    repository: RepositoryContextView,
    arguments: Seq<Seq<char>>,
) -> AgentSessionView {
    AgentSessionView {
        name: harness.program(),
        manifest: EnvironmentManifestView {
            harness: harness.program(),
            repository: Some(repository.identity),
            revision: repository.revision,
            worktree: Some(repository.root),
            capabilities: Seq::empty(),
        },
        lease_seconds: AGENT_LEASE_SECONDS,
        child: seq![harness.program()] + arguments,
    }
}

/// The session in which an agent runs in a repository.
pub fn agent_session(
    harness: AgentHarness,
    repository: &RepositoryContext,
    arguments: Vec<String>,
) -> (r: AgentSession)
    ensures
        r@ == agent_session_in(harness, repository@, arguments.deep_view()),
{
    let program = harness.executable();
    let mut rest = arguments;
    let ghost given = rest.deep_view();
    let mut child: Vec<String> = Vec::new();
    child.push(program.to_owned());
    child.append(&mut rest);
    assert(child.deep_view() =~= seq![harness.program()] + given);
    let capabilities: Vec<String> = Vec::new();
    assert(capabilities.deep_view() =~= Seq::<Seq<char>>::empty());
    AgentSession {
        name: program.to_owned(),
        manifest: EnvironmentManifest {
            harness: program.to_owned(),
            repository: Some(repository.identity.clone()),
            revision: repository.revision.clone(),
            worktree: Some(repository.root.clone()),
            capabilities,
        },
        lease_seconds: AGENT_LEASE_SECONDS,
        child,
    }
}

/// The participant that joined.
pub open spec fn joined_as(result: CommandResultView) -> Result<ParticipantId, CliErrorView> {
    match result {
        CommandResultView::Accepted { participant_id: Some(id), .. } => Ok(id),
        CommandResultView::Rejected { reason } => Err(CliErrorView::Rejected(reason)),
        _ => Err(CliErrorView::MissingParticipant),
    }
}

/// The participant that joined.
pub fn joined_participant(result: CommandResult) -> (r: Result<ParticipantId, CliError>)
    ensures
        outcome::seen(r) == joined_as(result@),
{
    match result {
        CommandResult::Accepted { participant_id, .. } => match participant_id {
            Some(id) => Ok(id),
            None => Err(CliError::MissingParticipant),
        },
        CommandResult::Rejected { reason } => Err(CliError::Rejected(reason)),
        CommandResult::Conflict { .. } => Err(CliError::MissingParticipant),
    }
}

/// The variables that a session's process finds in its environment: who it is, where the daemon
/// listens and which scope it works in.
pub open spec fn environment_of(
    participant_id: ParticipantId,
    endpoint: Seq<char>,
    scope: Seq<char>,
) -> Seq<(Seq<char>, Seq<char>)> {
    seq![
        ("CLARITY_PARTICIPANT_ID"@, identity::uuid_text(participant_id.0)),
        ("CLARITY_ENDPOINT"@, endpoint),
        ("CLARITY_SCOPE"@, scope),
    ]
}

/// The variables that a session's process finds in its environment.
pub fn session_environment(participant_id: ParticipantId, endpoint: &str, scope: &str) -> (r: Vec<
    (String, String),
>)
    ensures
        r.deep_view() == environment_of(participant_id, endpoint@, scope@),
{
    let r = vec![
        ("CLARITY_PARTICIPANT_ID".to_owned(), participant_id.to_text()),
        ("CLARITY_ENDPOINT".to_owned(), endpoint.to_owned()),
        ("CLARITY_SCOPE".to_owned(), scope.to_owned()),
    ];
    assert(r.deep_view() =~= environment_of(participant_id, endpoint@, scope@));
    r
}

/// How a session's process is started.
#[derive(Clone, Debug, Eq, PartialEq)]
pub struct Launch {
    pub program: String,
    pub arguments: Vec<String>,
    pub environment: Vec<(String, String)>,
}

/// What [`Launch`] stands for.
#[verifier::ext_equal]
pub struct LaunchView {
    pub program: Seq<char>,
    pub arguments: Seq<Seq<char>>,
    pub environment: Seq<(Seq<char>, Seq<char>)>,
}

impl View for Launch {
    type V = LaunchView;

    open spec fn view(&self) -> LaunchView {
        LaunchView {
            program: self.program.deep_view(),
            arguments: self.arguments.deep_view(),
            environment: self.environment.deep_view(),
        }
    }
}

impl DeepView for Launch {
    type V = LaunchView;

    open spec fn deep_view(&self) -> LaunchView {
        self.view()
    }
}

/// How a session's process is started: the first word is the program, the rest are its arguments,
/// and the environment tells it of the session.
pub open spec fn launch_of(
    participant_id: ParticipantId,
    endpoint: Seq<char>,
    scope: Seq<char>,
    child: Seq<Seq<char>>,
) -> LaunchView {
    LaunchView {
        program: child[0],
        arguments: child.skip(1),
        environment: environment_of(participant_id, endpoint, scope),
    }
}

/// How a session's process is started.
pub fn launch(
    participant_id: ParticipantId,
    endpoint: &str,
    scope: &str,
    child: Vec<String>,
) -> (r: Launch)
    requires
        child@.len() > 0,
    ensures
        r@ == launch_of(participant_id, endpoint@, scope@, child.deep_view()),
{
    let ghost given = child.deep_view();
    let mut arguments = child;
    let program = arguments.remove(0);
    assert(program@ == given[0]);
    assert(arguments.deep_view() =~= given.skip(1));
    Launch {
        program,
        arguments,
        environment: session_environment(participant_id, endpoint, scope),
    }
}

/// The words of a session's process reach it as they were given.
pub proof fn launches_keep_their_words(
    participant_id: ParticipantId,
    endpoint: Seq<char>,
    scope: Seq<char>,
    child: Seq<Seq<char>>,
)
    requires
        child.len() > 0,
    ensures
        ({
            let launch = launch_of(participant_id, endpoint, scope, child);
            seq![launch.program] + launch.arguments == child
        }),
{
    assert(seq![child[0]] + child.skip(1) =~= child);
}

/// The seconds between two heartbeats: a third of the lease, and at least one.
pub open spec fn heartbeat_period(lease_seconds: u64) -> u64 {
    if lease_seconds / 3 > 1 {
        lease_seconds / 3
    } else {
        1
    }
}

/// The seconds between two heartbeats.
pub fn heartbeat_seconds(lease_seconds: u64) -> (r: u64)
    ensures
        r == heartbeat_period(lease_seconds),
{
    let third: u64 = lease_seconds / 3;
    if third > 1 {
        third
    } else {
        1
    }
}

/// Heartbeats come in time: every lease that can be had holds three periods.
pub proof fn heartbeats_come_in_time(lease_seconds: u64)
    requires
        5 <= lease_seconds <= 300,
    ensures
        1 <= heartbeat_period(lease_seconds),
        3 * heartbeat_period(lease_seconds) <= lease_seconds,
{
}

/// Why a heartbeat ends the session, where it does.
pub open spec fn heartbeat_fault(result: CommandResultView) -> Option<CliErrorView> {
    match result {
        CommandResultView::Accepted { .. } => None,
        CommandResultView::Rejected { reason } => Some(CliErrorView::Rejected(reason)),
        CommandResultView::Conflict { .. } => Some(CliErrorView::HeartbeatStopped),
    }
}

/// Why a heartbeat ends the session, where it does.
pub fn check_heartbeat(result: CommandResult) -> (r: Option<CliError>)
    ensures
        r.deep_view() == heartbeat_fault(result@),
{
    match result {
        CommandResult::Accepted { .. } => None,
        CommandResult::Rejected { reason } => Some(CliError::Rejected(reason)),
        CommandResult::Conflict { .. } => Some(CliError::HeartbeatStopped),
    }
}

/// How a session came to its end.
#[derive(Clone, Debug, Eq, PartialEq)]
pub enum SessionOutcome {
    /// The process could not be started.
    NotStarted {
        reason: String,
    },
    /// The process exited.
    Child {
        success: bool,
        status: String,
    },
    /// The heartbeats stopped.
    Heartbeat {
        error: Option<CliError>,
    },
    /// The session was told to end.
    Interrupted,
    /// Waiting for the process failed.
    WaitFailed {
        reason: String,
    },
    /// The task of the heartbeats failed.
    TaskFailed {
        reason: String,
    },
}

/// What [`SessionOutcome`] stands for.
#[verifier::ext_equal]
pub enum SessionOutcomeView {
    NotStarted {
        reason: Seq<char>,
    },
    Child {
        success: bool,
        status: Seq<char>,
    },
    Heartbeat {
        error: Option<CliErrorView>,
    },
    Interrupted,
    WaitFailed {
        reason: Seq<char>,
    },
    TaskFailed {
        reason: Seq<char>,
    },
}

impl View for SessionOutcome {
    type V = SessionOutcomeView;

    open spec fn view(&self) -> SessionOutcomeView {
        match self {
            SessionOutcome::NotStarted { reason } => SessionOutcomeView::NotStarted {
                reason: reason.deep_view(),
            },
            SessionOutcome::Child { success, status } => SessionOutcomeView::Child {
                success: *success,
                status: status.deep_view(),
            },
            SessionOutcome::Heartbeat { error } => SessionOutcomeView::Heartbeat {
                error: error.deep_view(),
            },
            SessionOutcome::Interrupted => SessionOutcomeView::Interrupted,
            SessionOutcome::WaitFailed { reason } => SessionOutcomeView::WaitFailed {
                reason: reason.deep_view(),
            },
            SessionOutcome::TaskFailed { reason } => SessionOutcomeView::TaskFailed {
                reason: reason.deep_view(),
            },
        }
    }
}

impl DeepView for SessionOutcome {
    type V = SessionOutcomeView;

    open spec fn deep_view(&self) -> SessionOutcomeView {
        self.view()
    }
}

/// How a session is brought to its end: what is stopped, what is told to the daemon then, and how
/// the command ends.
#[derive(Clone, Debug, Eq, PartialEq)]
pub struct SessionEnd {
    pub abort_heartbeat: bool,
    pub kill_child: bool,
    pub farewell: Option<Command>,
    pub error: Option<CliError>,
}

/// What [`SessionEnd`] stands for.
#[verifier::ext_equal]
pub struct SessionEndView {
    pub abort_heartbeat: bool,
    pub kill_child: bool,
    pub farewell: Option<CommandView>,
    pub error: Option<CliErrorView>,
}

impl View for SessionEnd {
    type V = SessionEndView;

    open spec fn view(&self) -> SessionEndView {
        SessionEndView {
            abort_heartbeat: self.abort_heartbeat,
            kill_child: self.kill_child,
            farewell: self.farewell.deep_view(),
            error: self.error.deep_view(),
        }
    }
}

impl DeepView for SessionEnd {
    type V = SessionEndView;

    open spec fn deep_view(&self) -> SessionEndView {
        self.view()
    }
}

/// How the session of a participant is brought to its end. The participant leaves, unless waiting
/// for the process or the heartbeats' own task failed: then the lease runs out.
pub open spec fn ending(
    participant_id: ParticipantId,
    outcome: SessionOutcomeView,
) -> SessionEndView {
    match outcome {
        SessionOutcomeView::NotStarted { reason } => SessionEndView {
            abort_heartbeat: false,
            kill_child: false,
            farewell: Some(CommandView::Leave { participant_id }),
            error: Some(CliErrorView::Io(reason)),
        },
        SessionOutcomeView::Child { success, status } => SessionEndView {
            abort_heartbeat: true,
            kill_child: false,
            farewell: Some(CommandView::Leave { participant_id }),
            error: if success {
                None
            } else {
                Some(CliErrorView::Child(status))
            },
        },
        SessionOutcomeView::Heartbeat { error } => SessionEndView {
            abort_heartbeat: false,
            kill_child: true,
            farewell: Some(CommandView::Leave { participant_id }),
            error: Some(
                match error {
                    Some(error) => error,
                    None => CliErrorView::HeartbeatStopped,
                },
            ),
        },
        SessionOutcomeView::Interrupted => SessionEndView {
            abort_heartbeat: true,
            kill_child: true,
            farewell: Some(CommandView::Leave { participant_id }),
            error: Some(CliErrorView::Interrupted),
        },
        SessionOutcomeView::WaitFailed { reason } => SessionEndView {
            abort_heartbeat: false,
            kill_child: false,
            farewell: None,
            error: Some(CliErrorView::Io(reason)),
        },
        SessionOutcomeView::TaskFailed { reason } => SessionEndView {
            abort_heartbeat: false,
            kill_child: false,
            farewell: None,
            error: Some(CliErrorView::Task(reason)),
        },
    }
}

/// How the session of a participant is brought to its end.
pub fn conclude(participant_id: ParticipantId, outcome: SessionOutcome) -> (r: SessionEnd)
    ensures
        r@ == ending(participant_id, outcome@),
{
    match outcome {
        SessionOutcome::NotStarted { reason } => SessionEnd {
            abort_heartbeat: false,
            kill_child: false,
            farewell: Some(Command::Leave { participant_id }),
            error: Some(CliError::Io(reason)),
        },
        SessionOutcome::Child { success, status } => SessionEnd {
            abort_heartbeat: true,
            kill_child: false,
            farewell: Some(Command::Leave { participant_id }),
            error: if success {
                None
            } else {
                Some(CliError::Child(status))
            },
        },
        SessionOutcome::Heartbeat { error } => SessionEnd {
            abort_heartbeat: false,
            kill_child: true,
            farewell: Some(Command::Leave { participant_id }),
            error: Some(
                match error {
                    Some(error) => error,
                    None => CliError::HeartbeatStopped,
                },
            ),
        },
        SessionOutcome::Interrupted => SessionEnd {
            abort_heartbeat: true,
            kill_child: true,
            farewell: Some(Command::Leave { participant_id }),
            error: Some(CliError::Interrupted),
        },
        SessionOutcome::WaitFailed { reason } => SessionEnd {
            abort_heartbeat: false,
            kill_child: false,
            farewell: None,
            error: Some(CliError::Io(reason)),
        },
        SessionOutcome::TaskFailed { reason } => SessionEnd {
            abort_heartbeat: false,
            kill_child: false,
            farewell: None,
            error: Some(CliError::Task(reason)),
        },
    }
}

/// A session succeeds exactly when its process did; the process is stopped where the heartbeats
/// stopped or the session was told to end.
pub proof fn sessions_end_with_their_process(
    participant_id: ParticipantId,
    outcome: SessionOutcomeView,
)
    ensures
        ending(participant_id, outcome).error is None <==> outcome is Child && outcome->success,
        ending(participant_id, outcome).kill_child <==> outcome is Heartbeat
            || outcome is Interrupted,
{
}

/// The participant of a session leaves when the process cannot be started, when it exits, when the
/// heartbeats stop and when the session is told to end. Only where waiting for the process or the
/// heartbeats' own task failed, nothing is told to the daemon.
pub proof fn sessions_take_their_leave(participant_id: ParticipantId, outcome: SessionOutcomeView)
    ensures
        !(outcome is WaitFailed) && !(outcome is TaskFailed) ==> ending(
            participant_id,
            outcome,
        ).farewell == Some(CommandView::Leave { participant_id }),
        outcome is WaitFailed || outcome is TaskFailed ==> ending(
            participant_id,
            outcome,
        ).farewell is None,
{
}

} // verus!
