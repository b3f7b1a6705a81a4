//! The command line: what arguments stand for, and what answers come to.
use vstd::prelude::*;

use crate::bootstrap::{BootstrapErrorView, DaemonDisposition, RepositoryContextView};
use crate::cli::arguments;
use crate::cli::arguments::{AgentHarness, SignalArgumentsView};
use crate::cli::commands;
use crate::cli::session;
use crate::cli::session::SessionOutcomeView;
use crate::cli::workspace;
use crate::cli::workspace::{LinearAnswerView, WorkspacePlanView};
use crate::cli::CliErrorView;
use crate::protocol::{
    ArtifactKind, ArtifactRefView, CommandResultView, CommandView, ParticipantId, RequestId,
    SignalView, WorkId, WorkspaceView,
};
use crate::runtime::RuntimeErrorView;
use crate::text;

verus! {

/// A signal is built of what was given, field by field: the kind decides which fields it has, and
/// a text that was not given is empty.
pub proof fn signals_are_built_as_given(given: SignalArgumentsView, fresh: RequestId)
    ensures
        ({
            let signal = given.signal(fresh);
            let request_id = if given.request_id is Some {
                given.request_id->0
            } else {
                fresh
            };
            let action = if given.requested_action is Some {
                given.requested_action->0
            } else {
                Seq::<char>::empty()
            };
            let risk = if given.known_risk is Some {
                given.known_risk->0
            } else {
                Seq::<char>::empty()
            };
            let parts = crate::laws::requests::parts_of(signal);
            let asks = given.kind is HelpNeeded || given.kind is DecisionNeeded
                || given.kind is Blocked || given.kind is ReviewRequested;
            let identity = parts.2;
            &&& parts.0 == given.summary
            &&& !(given.kind is Working) ==> parts.1 == given.artifacts
            &&& asks && given.request_key is Some ==> {
                &&& identity is Some
                &&& identity->0.request_id == request_id
                &&& identity->0.request_key == given.request_key->0
                &&& identity->0.supersedes_request_id == given.supersedes_request
            }
            &&& !asks || given.request_key is None ==> identity is None
            &&& given.kind is Working <==> signal is Working
            &&& given.kind is Finding <==> signal is Finding
            &&& given.kind is Offering <==> signal is Offering
            &&& given.kind is HelpNeeded <==> signal is HelpNeeded
            &&& given.kind is DecisionNeeded <==> signal is DecisionNeeded
            &&& given.kind is Blocked <==> signal is Blocked
            &&& given.kind is Checkpoint <==> signal is Checkpoint
            &&& given.kind is ReviewRequested <==> signal is ReviewRequested
            &&& given.kind is Done <==> signal is Done
            &&& match signal {
                SignalView::HelpNeeded { requested_action, .. } => requested_action == action,
                SignalView::Blocked { requested_action, .. } => requested_action == action,
                SignalView::DecisionNeeded { choices, recommendation, .. } => choices
                    == given.choices && recommendation == given.recommendation,
                SignalView::ReviewRequested { requested_action, known_risk, .. } => requested_action
                    == action && known_risk == risk,
                _ => true,
            }
        }),
{
}

/// An artifact is given as its kind, a colon and its address; the address keeps all that stands
/// behind the first colon.
pub proof fn artifacts_are_read_by_kind(name: Seq<char>, uri: Seq<char>)
    requires
        text::lacks(name, ':'),
    ensures
        ({
            let read = arguments::artifact_of(name + seq![':'] + uri);
            let kind = if name == seq!['f', 'i', 'l', 'e'] {
                Some(ArtifactKind::File)
            } else if name == seq!['p', 'a', 't', 'c', 'h'] {
                Some(ArtifactKind::Patch)
            } else if name == seq!['r', 'e', 'v', 'i', 's', 'i', 'o', 'n'] {
                Some(ArtifactKind::Revision)
            } else if name == seq!['t', 'e', 's', 't', '_', 'r', 'e', 'c', 'e', 'i', 'p', 't'] {
                Some(ArtifactKind::TestReceipt)
            } else if name == seq!['u', 'r', 'l'] {
                Some(ArtifactKind::Url)
            } else {
                None
            };
            &&& text::is_blank(uri) ==> read == Err::<ArtifactRefView, Seq<char>>(
                "artifact URI must not be empty"@,
            )
            &&& !text::is_blank(uri) && kind is Some ==> read == Ok::<ArtifactRefView, Seq<char>>(
                ArtifactRefView { kind: kind->0, uri, digest: None },
            )
            &&& !text::is_blank(uri) && kind is None ==> read == Err::<ArtifactRefView, Seq<char>>(
                "unknown artifact kind: "@ + name,
            )
        }),
        arguments::artifact_of(name) == Err::<ArtifactRefView, Seq<char>>(
            "artifact must be KIND:URI"@,
        ),
{
    reveal_strlit(":");
    reveal_strlit("file");
    reveal_strlit("patch");
    reveal_strlit("revision");
    reveal_strlit("test_receipt");
    reveal_strlit("url");
    assert(":"@ =~= seq![':']);
    assert("file"@ =~= seq!['f', 'i', 'l', 'e']);
    assert("patch"@ =~= seq!['p', 'a', 't', 'c', 'h']);
    assert("revision"@ =~= seq!['r', 'e', 'v', 'i', 's', 'i', 'o', 'n']);
    assert("test_receipt"@ =~= seq!['t', 'e', 's', 't', '_', 'r', 'e', 'c', 'e', 'i', 'p', 't']);
    assert("url"@ =~= seq!['u', 'r', 'l']);
    text::lemma_split_behind(name, ":"@, uri);
    assert forall|j: int| 0 <= j <= name.len() - 1 implies #[trigger] name.subrange(j, j + 1)
        != ":"@ by {
        assert(name.subrange(j, j + 1)[0] == name[j]);
    }
    text::lemma_not_split(name, ":"@);
}

/// A letter of the Latin alphabet in upper case.
pub open spec fn in_upper_case(c: char) -> char {
    match c {
        'a' => 'A',
        'b' => 'B',
        'c' => 'C',
        'd' => 'D',
        'e' => 'E',
        'f' => 'F',
        'g' => 'G',
        'h' => 'H',
        'i' => 'I',
        'j' => 'J',
        'k' => 'K',
        'l' => 'L',
        'm' => 'M',
        'n' => 'N',
        'o' => 'O',
        'p' => 'P',
        'q' => 'Q',
        'r' => 'R',
        's' => 'S',
        't' => 'T',
        'u' => 'U',
        'v' => 'V',
        'w' => 'W',
        'x' => 'X',
        'y' => 'Y',
        'z' => 'Z',
        _ => c,
    }
}

/// An issue is the letters of a team, a hyphen and a number, in either case, with or without white
/// space around; its identifier has the letters in upper case.
pub proof fn issues_are_a_team_and_a_number(
    before: Seq<char>,
    team: Seq<char>,
    number: Seq<char>,
    after: Seq<char>,
)
    requires
        text::is_blank(before),
        text::is_blank(after),
        team.len() > 0,
        number.len() > 0,
        forall|i: int|
            0 <= i < team.len() ==> ('a' <= #[trigger] team[i] <= 'z' || 'A' <= team[i] <= 'Z'),
        forall|i: int| 0 <= i < number.len() ==> '0' <= #[trigger] number[i] <= '9',
    ensures
        arguments::issue_identifier(before + (team + seq!['-'] + number) + after) == Ok::<
            Seq<char>,
            CliErrorView,
        >(team.map_values(|c: char| in_upper_case(c)) + seq!['-'] + number),
{
    let whole = team + seq!['-'] + number;
    let upper = team.map_values(|c: char| in_upper_case(c));
    let id = upper + seq!['-'] + number;
    reveal_strlit("-");
    assert("-"@ =~= seq!['-']);
    assert(whole[0] == team[0]);
    assert(whole.last() == number[number.len() - 1]);
    text::lemma_trimmed_already(whole);
    crate::laws::paths::lemma_trimmed_inside(before, whole, after);
    assert(arguments::uppercased(whole) =~= id) by {
        assert forall|i: int| 0 <= i < whole.len() implies #[trigger] arguments::uppercased(whole)[i]
            == id[i] by {
            lemma_upper(whole[i]);
            if i < team.len() {
                assert(whole[i] == team[i]);
            } else if i > team.len() {
                assert(whole[i] == number[i - team.len() - 1]);
            }
        }
    }
    assert forall|i: int| 0 <= i < upper.len() implies #[trigger] upper[i] != '-' && 'A' <= upper[i]
        <= 'Z' by {
        lemma_upper(team[i]);
    }
    text::lemma_split_behind(upper, "-"@, number);
}

proof fn lemma_upper(c: char)
    ensures
        arguments::upper_char(c) == in_upper_case(c),
        'a' <= c <= 'z' ==> 'A' <= in_upper_case(c) <= 'Z',
        'A' <= c <= 'Z' ==> in_upper_case(c) == c,
{
    assert('a' <= c <= 'z' ==> arguments::upper_char(c) as int == c as int - 32);
}

/// Every identifier of an issue has upper-case letters, a hyphen and digits, some of each, and nothing
/// else.
pub proof fn identifiers_have_a_team_and_a_number(issue: Seq<char>)
    requires
        arguments::issue_identifier(issue) is Ok,
    ensures
        ({
            let id = arguments::issue_identifier(issue)->Ok_0;
            exists|at: int|
                0 < at < id.len() - 1 && #[trigger] id[at] == '-' && (forall|i: int|
                    0 <= i < at ==> 'A' <= #[trigger] id[i] <= 'Z') && (forall|i: int|
                    at < i < id.len() ==> '0' <= #[trigger] id[i] <= '9')
        }),
{
    let id = arguments::issue_identifier(issue)->Ok_0;
    let (team, number) = text::split_at_first(id, "-"@)->0;
    let at = text::find_from(id, "-"@, 0)->0;
    reveal_strlit("-");
    arguments::lemma_found(id, "-"@, 0);
    assert(id.subrange(at, at + 1)[0] == id[at]);
    assert(team =~= id.take(at));
    assert(number =~= id.skip(at + 1));
    let t = text::trimmed(issue);
    assert forall|i: int| 0 <= i < at implies 'A' <= #[trigger] id[i] <= 'Z' by {
        assert(team[i] == id[i]);
        lemma_upper(t[i]);
        assert(id[i] == arguments::upper_char(t[i]));
    }
    assert forall|i: int| at < i < id.len() implies '0' <= #[trigger] id[i] <= '9' by {
        assert(number[i - at - 1] == id[i]);
    }
}

/// What is no issue is refused in the form in which it was read: without the white space around it,
/// and in upper case.
pub proof fn other_texts_are_refused_as_read(issue: Seq<char>)
    requires
        arguments::issue_identifier(issue) is Err,
    ensures
        arguments::issue_identifier(issue) == Err::<Seq<char>, CliErrorView>(
            CliErrorView::InvalidIssue(
                text::trimmed(issue).map_values(|c: char| in_upper_case(c)),
            ),
        ),
{
    let read = text::trimmed(issue);
    assert(arguments::uppercased(read) =~= read.map_values(|c: char| in_upper_case(c))) by {
        assert forall|i: int| 0 <= i < read.len() implies #[trigger] arguments::uppercased(read)[i]
            == in_upper_case(read[i]) by {
            lemma_upper(read[i]);
        }
    }
}

/// A key for Linear is used as it was given, unless it is missing or blank.
pub proof fn keys_are_used_as_given(value: Option<Seq<char>>)
    ensures
        value is Some && !text::is_blank(value->0) ==> arguments::usable_key(value) == Ok::<
            Seq<char>,
            CliErrorView,
        >(value->0),
        value is None || text::is_blank(value->0) ==> arguments::usable_key(value) == Err::<
            Seq<char>,
            CliErrorView,
        >(CliErrorView::MissingLinearApiKey),
{
}

/// A command succeeds where it was accepted; a refusal is told in its own words, and an overlap as
/// such.
pub proof fn answers_tell_success(result: CommandResultView)
    ensures
        commands::success_of(result) is Ok <==> result is Accepted,
        result is Rejected ==> commands::success_of(result) == Err::<(), CliErrorView>(
            CliErrorView::Rejected(result->reason),
        ),
        result is Conflict ==> commands::success_of(result) == Err::<(), CliErrorView>(
            CliErrorView::Rejected("overlapping resources are already claimed"@),
        ),
        result is Accepted && result->Accepted_participant_id is Some ==> session::joined_as(result)
            == Ok::<ParticipantId, CliErrorView>(result->Accepted_participant_id->0),
        result is Rejected ==> session::joined_as(result) == Err::<ParticipantId, CliErrorView>(
            CliErrorView::Rejected(result->reason),
        ),
        result is Conflict || (result is Accepted && result->Accepted_participant_id is None)
            ==> session::joined_as(result) == Err::<ParticipantId, CliErrorView>(
            CliErrorView::MissingParticipant,
        ),
        session::heartbeat_fault(result) is None <==> result is Accepted,
        result is Rejected ==> session::heartbeat_fault(result) == Some(
            CliErrorView::Rejected(result->reason),
        ),
        result is Conflict ==> session::heartbeat_fault(result) == Some(
            CliErrorView::HeartbeatStopped,
        ),
{
}

/// A direction is aimed where a source event is given, by all the marks that were given with it.
pub proof fn directions_are_aimed_by_their_marks(
    source_event: Option<u128>,
    request_id: Option<RequestId>,
    participant: Option<ParticipantId>,
    work: Option<WorkId>,
)
    ensures
        ({
            let target = commands::target_of(source_event, request_id, participant, work);
            &&& target is Some <==> source_event is Some
            &&& target is Some && participant is Some ==> {
                &&& target->0.source_event_id == source_event->0
                &&& target->0.request_id == request_id
                &&& target->0.participant_id == participant->0
                &&& target->0.work_id == work
            }
        }),
{
}

/// Linear's issue counts where there is one; without one its reasons are told, and without reasons
/// that the issue was not found.
pub proof fn linear_is_quoted(
    identifier: Seq<char>,
    issue: Option<LinearAnswerView>,
    reason: Seq<char>,
    other: Seq<char>,
)
    ensures
        issue is Some ==> forall|errors: Seq<Seq<char>>|
            #[trigger] workspace::linear_said(identifier, issue, errors) == Ok::<
                LinearAnswerView,
                CliErrorView,
            >(issue->0),
        workspace::linear_said(identifier, None, Seq::empty()) == Err::<
            LinearAnswerView,
            CliErrorView,
        >(CliErrorView::Linear("issue "@ + identifier + " was not found"@)),
        reason.len() > 0 ==> workspace::linear_said(identifier, None, seq![reason]) == Err::<
            LinearAnswerView,
            CliErrorView,
        >(CliErrorView::Linear(reason)),
        workspace::linear_said(identifier, None, seq![reason, other]) == Err::<
            LinearAnswerView,
            CliErrorView,
        >(CliErrorView::Linear(reason + seq![';', ' '] + other)),
{
    reveal_strlit("; ");
    assert("; "@ =~= seq![';', ' ']);
    let two = seq![reason, other];
    assert(two.drop_last() =~= seq![reason]);
    assert(text::joined(seq![reason], "; "@) == reason);
    assert(text::joined(two, "; "@) == reason + "; "@ + other);
}

/// The workspace of an issue is that of its identifier, with its title and address, the description
/// as its objective or else the title, and the repository as it is.
pub proof fn issues_become_workspaces(issue: LinearAnswerView, repository: RepositoryContextView)
    ensures
        ({
            let made = workspace::described(issue, repository);
            &&& made.scope == seq!['l', 'i', 'n', 'e', 'a', 'r', ':'] + issue.identifier
            &&& made.title == issue.title
            &&& issue.description is Some && !text::is_blank(issue.description->0)
                ==> made.objective == issue.description->0
            &&& issue.description is None || text::is_blank(issue.description->0)
                ==> made.objective == issue.title
            &&& made.linear_issue.identifier == issue.identifier
            &&& made.linear_issue.url == Some(issue.url)
            &&& made.linear_issue.metadata is Some
            &&& made.linear_issue.metadata->0.status == issue.status
            &&& made.linear_issue.metadata->0.updated_at == issue.updated_at
            &&& made.repository is Some
            &&& made.repository->0.repository == repository.identity
            &&& made.repository->0.revision == repository.revision
        }),
{
    reveal_strlit("linear:");
    assert("linear:"@ =~= seq!['l', 'i', 'n', 'e', 'a', 'r', ':']);
}

/// An unknown workspace is defined as Linear describes it; a known one is refreshed, in the
/// repository that it has; without a key a known one is kept; any other failure is passed on.
pub proof fn workspaces_are_planned_by_what_is_known(
    cached: Option<WorkspaceView>,
    resolved: Result<LinearAnswerView, CliErrorView>,
    repository: RepositoryContextView,
)
    ensures
        ({
            let plan = workspace::planned(cached, resolved, repository);
            &&& resolved is Ok && cached is None ==> plan == Ok::<WorkspacePlanView, CliErrorView>(
                WorkspacePlanView::Send {
                    command: CommandView::DefineWorkspace {
                        workspace: workspace::described(resolved->Ok_0, repository),
                    },
                    workspace: workspace::described(resolved->Ok_0, repository),
                },
            )
            &&& resolved is Ok && cached is Some ==> plan is Ok && plan->Ok_0 is Send && {
                let sent = plan->Ok_0->Send_workspace;
                let now = workspace::described(resolved->Ok_0, repository);
                &&& plan->Ok_0->command == (CommandView::RefreshWorkspaceMetadata {
                    workspace: sent,
                })
                &&& sent.scope == now.scope
                &&& sent.title == now.title
                &&& sent.objective == now.objective
                &&& sent.linear_issue == now.linear_issue
                &&& sent.repository == cached->0.repository
            }
            &&& resolved is Err && resolved->Err_0 is MissingLinearApiKey && cached is Some
                ==> plan == Ok::<WorkspacePlanView, CliErrorView>(
                WorkspacePlanView::Keep(cached->0),
            )
            &&& resolved is Err && (!(resolved->Err_0 is MissingLinearApiKey) || cached is None)
                ==> plan == Err::<WorkspacePlanView, CliErrorView>(resolved->Err_0)
        }),
{
}

/// An agent runs in a session of 15 seconds under its program's name, with what is known of the
/// repository, and its program gets the arguments as they were given.
pub proof fn agents_run_in_their_repository(
    repository: RepositoryContextView,
    given: Seq<Seq<char>>,
)
    ensures
        ({
            let session = session::agent_session_in(AgentHarness::Amp, repository, given);
            &&& session.name == seq!['a', 'm', 'p']
            &&& session.lease_seconds == 15
            &&& session.child.len() == given.len() + 1
            &&& session.child[0] == seq!['a', 'm', 'p']
            &&& forall|i: int| 0 <= i < given.len() ==> session.child[i + 1] == #[trigger] given[i]
            &&& session.manifest.harness == seq!['a', 'm', 'p']
            &&& session.manifest.repository == Some(repository.identity)
            &&& session.manifest.revision == repository.revision
            &&& session.manifest.worktree == Some(repository.root)
            &&& session.manifest.capabilities.len() == 0
        }),
{
    reveal_strlit("amp");
    assert("amp"@ =~= seq!['a', 'm', 'p']);
}

/// A session's process finds in its environment who it is, where the daemon listens and which scope
/// it works in, and nothing else; heartbeats come every third of the lease, or every second.
pub proof fn processes_know_their_session(
    participant_id: ParticipantId,
    endpoint: Seq<char>,
    scope: Seq<char>,
    lease_seconds: u64,
)
    ensures
        ({
            let environment = session::environment_of(participant_id, endpoint, scope);
            &&& environment.len() == 3
            &&& environment.contains(
                ("CLARITY_PARTICIPANT_ID"@, crate::identity::uuid_text(participant_id.0)),
            )
            &&& environment.contains(("CLARITY_ENDPOINT"@, endpoint))
            &&& environment.contains(("CLARITY_SCOPE"@, scope))
        }),
        lease_seconds >= 3 ==> 3 * session::heartbeat_period(lease_seconds) <= lease_seconds
            < 3 * session::heartbeat_period(lease_seconds) + 3,
        lease_seconds < 3 ==> session::heartbeat_period(lease_seconds) == 1,
{
    let environment = session::environment_of(participant_id, endpoint, scope);
    assert(environment[0] == (
        "CLARITY_PARTICIPANT_ID"@,
        crate::identity::uuid_text(participant_id.0),
    ));
    assert(environment[1] == ("CLARITY_ENDPOINT"@, endpoint));
    assert(environment[2] == ("CLARITY_SCOPE"@, scope));
}

/// A session ends as its process did, or with what ended it.
pub proof fn sessions_tell_how_they_ended(
    participant_id: ParticipantId,
    reason: Seq<char>,
    error: CliErrorView,
)
    ensures
        session::ending(participant_id, SessionOutcomeView::NotStarted { reason }).error == Some(
            CliErrorView::Io(reason),
        ),
        session::ending(
            participant_id,
            SessionOutcomeView::Child { success: true, status: reason },
        ).error is None,
        session::ending(
            participant_id,
            SessionOutcomeView::Child { success: false, status: reason },
        ).error == Some(CliErrorView::Child(reason)),
        session::ending(
            participant_id,
            SessionOutcomeView::Heartbeat { error: Some(error) },
        ).error == Some(error),
        session::ending(participant_id, SessionOutcomeView::Heartbeat { error: None }).error == Some(
            CliErrorView::HeartbeatStopped,
        ),
        session::ending(participant_id, SessionOutcomeView::Interrupted).error == Some(
            CliErrorView::Interrupted,
        ),
        session::ending(participant_id, SessionOutcomeView::WaitFailed { reason }).error == Some(
            CliErrorView::Io(reason),
        ),
        session::ending(participant_id, SessionOutcomeView::TaskFailed { reason }).error == Some(
            CliErrorView::Task(reason),
        ),
        forall|outcome: SessionOutcomeView|
            (#[trigger] session::ending(participant_id, outcome)).abort_heartbeat <==> outcome
                is Child || outcome is Interrupted,
{
}

/// Bringing a repository online tells its name, whether the daemon was there or was started and
/// where it listens, and the workspace where one was selected; last comes how to run an agent.
pub proof fn reports_tell_what_is_online(
    repository: Seq<char>,
    disposition: DaemonDisposition,
    address: Seq<char>,
    selected: WorkspaceView,
)
    ensures
        ({
            let plain = commands::up_lines(repository, disposition, address, None);
            let full = commands::up_lines(repository, disposition, address, Some(selected));
            let daemon = if disposition is OwnedCompatible {
                "Daemon      "@ + "reused"@ + " at "@ + address
            } else {
                "Daemon      "@ + "started"@ + " at "@ + address
            };
            &&& plain.len() == 4
            &&& full.len() == 6
            &&& plain[0] == "\nCLARITY\n"@ && full[0] == plain[0]
            &&& plain[1] == "Repository  "@ + repository && full[1] == plain[1]
            &&& plain[2] == daemon && full[2] == daemon
            &&& full[3] == "Workspace   "@ + selected.linear_issue.identifier + " · "@
                + selected.title + " (compatibility selection)"@
            &&& full[4] == "\n`clarity up TG-*` is deprecated; use `clarity run amp TG-*`."@
            &&& plain[3] == "\nRun an agent task:\n  clarity run amp TG-187"@ && full[5] == plain[3]
        }),
{
}

/// Every error is told with what it is about.
pub proof fn errors_tell_what_they_are_about(reason: Seq<char>, other: Seq<char>, value: i64)
    ensures
        CliErrorView::Request(reason).message() == "request failed: "@ + reason,
        CliErrorView::Io(reason).message() == "I/O failed: "@ + reason,
        CliErrorView::Address(reason).message() == "invalid listen address: "@ + reason,
        CliErrorView::Rejected(reason).message() == "daemon rejected command: "@ + reason,
        CliErrorView::Child(reason).message() == "child process exited unsuccessfully: "@ + reason,
        CliErrorView::Task(reason).message() == "session task failed: "@ + reason,
        CliErrorView::Linear(reason).message() == "Linear API rejected the request: "@ + reason,
        CliErrorView::MissingParticipant.message()
            == "session join returned no participant identity"@,
        CliErrorView::HeartbeatStopped.message() == "session heartbeat stopped unexpectedly"@,
        CliErrorView::Interrupted.message() == "session interrupted"@,
        CliErrorView::MissingLinearApiKey.message()
            == "LINEAR_API_KEY is not set; create a Linear personal API key and export LINEAR_API_KEY"@,
        CliErrorView::InvalidIssue(reason).message() == "invalid Linear issue identifier `"@ + reason
            + "`; expected a value such as TG-183"@,
        (CliErrorView::ForeignDaemon { endpoint: reason, recovery: other }).message()
            == "daemon at "@ + reason
            + " is not owned by or compatible with this checkout; recover with exactly: `"@ + other
            + "`"@,
        CliErrorView::InvalidEndpoint(reason).message()
            == "configured endpoint must be a loopback HTTP address: "@ + reason,
        CliErrorView::DaemonStart(reason).message() == "daemon failed to start at "@ + reason
            + "; the HTTP port may already be unavailable"@,
        CliErrorView::Bootstrap(BootstrapErrorView::Io(reason)).message() == "I/O failed: "@ + reason,
        CliErrorView::Bootstrap(BootstrapErrorView::Git(reason)).message() == "Git command failed: "@
            + reason,
        CliErrorView::Bootstrap(BootstrapErrorView::InvalidOrigin(reason)).message()
            == "repository origin is not a recognizable Git URL: "@ + reason,
        CliErrorView::Bootstrap(BootstrapErrorView::MissingSelection).message()
            == "no active Clarity workstream in this checkout; run `clarity up TG-*` first"@,
        CliErrorView::Bootstrap(BootstrapErrorView::InvalidDaemonRecord(reason)).message()
            == "invalid daemon record: "@ + reason,
        CliErrorView::Runtime(RuntimeErrorView::Stopped).message() == "runtime failed: "@
            + "coordination runtime stopped"@,
        CliErrorView::Runtime(RuntimeErrorView::Store(reason)).message() == "runtime failed: "@ + (
        "event store failed: "@ + reason),
        CliErrorView::Runtime(RuntimeErrorView::Serialization(reason)).message()
            == "runtime failed: "@ + ("event serialization failed: "@ + reason),
        CliErrorView::Runtime(RuntimeErrorView::InvalidSequence(value)).message()
            == "runtime failed: "@ + ("stored event has a negative sequence: "@ + text::signed_text(
            value as int,
        )),
        value >= 0 ==> text::signed_text(value as int) == text::decimal_text(value as nat),
        value < 0 ==> text::signed_text(value as int) == "-"@ + text::decimal_text((-value) as nat),
{
}

} // verus!
