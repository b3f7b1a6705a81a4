use clarity::bootstrap::{
    BootstrapError, DaemonDisposition, DaemonIdentity, DaemonProbe, DaemonRecord,
    RepositoryContext, DAEMON_PROTOCOL_VERSION,
};
use clarity::cli::arguments::{
    build_signal, build_signal_with, linear_api_key, normalize_issue_identifier, AgentHarness,
    ArtifactArgument, SignalArguments, SignalKind,
};
use clarity::cli::commands::{
    claimed_id, client_endpoint, command_succeeded, intervene_command, selected_scope, up_report,
    workspace_command,
};
use clarity::cli::daemon::{
    classify_probe, daemon_recovery_command, endpoint_address, endpoint_authority,
    new_owner_token, record_path, Address, DaemonContext, DaemonStep, ProbeReply, PROBES,
};
use clarity::cli::session::{
    agent_session, check_heartbeat, conclude, heartbeat_seconds, joined_participant, launch,
    session_environment, SessionOutcome,
};
use clarity::cli::workspace::{linear_outcome, plan_workspace, LinearAnswer, WorkspacePlan};
use clarity::cli::CliError;
use clarity::paths::PathStyle;
use clarity::protocol::{
    ArtifactKind, ArtifactRef, Command, CommandResult, LinearIssue, ParticipantId, RepositoryRef,
    RequestId, Signal, WorkId, Workspace,
};
use clarity::runtime::RuntimeError;
use clarity::time::Timestamp;

#[test]
fn missing_linear_credentials_are_actionable() {
    assert!(matches!(linear_api_key(None), Err(CliError::MissingLinearApiKey)));
    assert!(matches!(
        linear_api_key(Some(String::new())),
        Err(CliError::MissingLinearApiKey)
    ));
}

#[test]
fn issue_identifiers_are_normalized_and_validated() {
    assert_eq!(normalize_issue_identifier("tg-183").unwrap(), "TG-183");
    assert!(normalize_issue_identifier("TG").is_err());
    assert!(normalize_issue_identifier("TG-next").is_err());
}

#[test]
fn keys_and_issues_are_taken_as_given() {
    assert_eq!(linear_api_key(Some(" \t".into())), Err(CliError::MissingLinearApiKey));
    assert_eq!(linear_api_key(Some(" key ".into())), Ok(" key ".into()));
    assert_eq!(normalize_issue_identifier("  aBc-007\n"), Ok("ABC-007".into()));
    for wrong in ["", "-", "TG-", "-1", "T1-1", "TG-1-2", "TG 1", "TÄ-1", "TG-١"] {
        let upper = wrong.trim().to_ascii_uppercase();
        assert_eq!(
            normalize_issue_identifier(wrong),
            Err(CliError::InvalidIssue(upper)),
            "{wrong}"
        );
    }
    let canonical = normalize_issue_identifier(" tg-9 ").unwrap();
    assert_eq!(normalize_issue_identifier(&canonical), Ok(canonical.clone()));
}

#[test]
fn artifacts_are_read_from_kind_and_uri() {
    let cases = [
        ("file:src/a.rs", ArtifactKind::File, "src/a.rs"),
        ("patch:x", ArtifactKind::Patch, "x"),
        ("revision:abc", ArtifactKind::Revision, "abc"),
        ("test_receipt:cargo test", ArtifactKind::TestReceipt, "cargo test"),
        ("url:https://example.com", ArtifactKind::Url, "https://example.com"),
    ];
    for (value, kind, uri) in cases {
        let argument = ArtifactArgument::from_str(value).unwrap();
        assert_eq!(argument.0, ArtifactRef { kind, uri: uri.into(), digest: None });
    }
    assert_eq!(
        ArtifactArgument::from_str("file").unwrap_err(),
        "artifact must be KIND:URI"
    );
    assert_eq!(
        ArtifactArgument::from_str("file: ").unwrap_err(),
        "artifact URI must not be empty"
    );
    assert_eq!(
        ArtifactArgument::from_str("movie:x").unwrap_err(),
        "unknown artifact kind: movie"
    );
    assert_eq!(
        ArtifactArgument::from_str("movie:").unwrap_err(),
        "artifact URI must not be empty"
    );
}

fn arguments(kind: SignalKind) -> SignalArguments {
    SignalArguments {
        kind,
        summary: "s".into(),
        artifacts: vec![ArtifactRef {
            kind: ArtifactKind::File,
            uri: "u".into(),
            digest: None,
        }],
        requested_action: None,
        choices: vec!["c".into()],
        recommendation: Some("r".into()),
        known_risk: None,
        request_id: None,
        request_key: None,
        supersedes_request: None,
    }
}

#[test]
fn signals_are_built_from_arguments() {
    let fresh = RequestId(7);
    let artifacts = arguments(SignalKind::Done).artifacts;
    assert_eq!(
        build_signal_with(arguments(SignalKind::Working), fresh),
        Signal::Working { summary: "s".into() }
    );
    assert_eq!(
        build_signal_with(arguments(SignalKind::Finding), fresh),
        Signal::Finding { summary: "s".into(), artifacts: artifacts.clone() }
    );
    assert_eq!(
        build_signal_with(arguments(SignalKind::Offering), fresh),
        Signal::Offering { summary: "s".into(), artifacts: artifacts.clone() }
    );
    assert_eq!(
        build_signal_with(arguments(SignalKind::Checkpoint), fresh),
        Signal::Checkpoint { summary: "s".into(), artifacts: artifacts.clone() }
    );
    assert_eq!(
        build_signal_with(arguments(SignalKind::Done), fresh),
        Signal::Done { summary: "s".into(), evidence: artifacts.clone() }
    );
    assert_eq!(
        build_signal_with(arguments(SignalKind::HelpNeeded), fresh),
        Signal::HelpNeeded {
            identity: None,
            summary: "s".into(),
            requested_action: String::new(),
            evidence: artifacts.clone()
        }
    );
    let mut keyed = arguments(SignalKind::Blocked);
    keyed.request_key = Some("k".into());
    keyed.requested_action = Some("act".into());
    keyed.supersedes_request = Some(RequestId(3));
    let Signal::Blocked { identity: Some(identity), requested_action, .. } =
        build_signal_with(keyed, fresh)
    else {
        panic!("a key makes a request");
    };
    assert_eq!(identity.request_id, fresh);
    assert_eq!(identity.request_key, "k");
    assert_eq!(identity.supersedes_request_id, Some(RequestId(3)));
    assert_eq!(requested_action, "act");
    let mut named = arguments(SignalKind::DecisionNeeded);
    named.request_key = Some("k".into());
    named.request_id = Some(RequestId(9));
    let Signal::DecisionNeeded { identity: Some(identity), choices, recommendation, .. } =
        build_signal_with(named, fresh)
    else {
        panic!("a key makes a request");
    };
    assert_eq!(identity.request_id, RequestId(9));
    assert_eq!(choices, vec!["c".to_owned()]);
    assert_eq!(recommendation.as_deref(), Some("r"));
    let mut review = arguments(SignalKind::ReviewRequested);
    review.known_risk = Some("risk".into());
    assert_eq!(
        build_signal_with(review, fresh),
        Signal::ReviewRequested {
            identity: None,
            summary: "s".into(),
            requested_action: String::new(),
            known_risk: "risk".into(),
            evidence: artifacts
        }
    );
    let mut first = arguments(SignalKind::HelpNeeded);
    first.request_key = Some("k".into());
    let mut second = arguments(SignalKind::HelpNeeded);
    second.request_key = Some("k".into());
    assert_ne!(
        build_signal(first).request_identity().unwrap().request_id,
        build_signal(second).request_identity().unwrap().request_id
    );
}

#[test]
fn answers_decide_how_a_command_ends() {
    let accepted = CommandResult::Accepted {
        participant_id: None,
        work_id: Some(WorkId(5)),
        request_id: None,
        event_sequences: vec![1],
    };
    let conflict = CommandResult::Conflict { conflicts: vec![], event_sequences: vec![] };
    let rejected = CommandResult::Rejected { reason: "no".into() };
    assert_eq!(command_succeeded(accepted.clone()), Ok(()));
    assert_eq!(
        command_succeeded(conflict.clone()),
        Err(CliError::Rejected("overlapping resources are already claimed".into()))
    );
    assert_eq!(command_succeeded(rejected.clone()), Err(CliError::Rejected("no".into())));
    assert_eq!(
        claimed_id(&accepted, true).as_deref(),
        Some("00000000-0000-0000-0000-000000000005")
    );
    assert_eq!(claimed_id(&accepted, false), None);
    assert_eq!(claimed_id(&conflict, true), None);

    let joined = CommandResult::Accepted {
        participant_id: Some(ParticipantId(4)),
        work_id: None,
        request_id: None,
        event_sequences: vec![],
    };
    assert_eq!(joined_participant(joined), Ok(ParticipantId(4)));
    assert_eq!(joined_participant(accepted.clone()), Err(CliError::MissingParticipant));
    assert_eq!(joined_participant(conflict.clone()), Err(CliError::MissingParticipant));
    assert_eq!(
        joined_participant(rejected.clone()),
        Err(CliError::Rejected("no".into()))
    );

    assert_eq!(check_heartbeat(accepted), None);
    assert_eq!(check_heartbeat(rejected), Some(CliError::Rejected("no".into())));
    assert_eq!(check_heartbeat(conflict), Some(CliError::HeartbeatStopped));
}

#[test]
fn interventions_target_a_source_event() {
    assert_eq!(
        intervene_command("s".into(), "m".into(), "a".into(), None, None, None, None),
        Command::Intervene {
            scope: "s".into(),
            message: "m".into(),
            author: "a".into(),
            target: None
        }
    );
    let Command::Intervene { target: Some(target), .. } = intervene_command(
        "s".into(),
        "m".into(),
        "a".into(),
        Some(8),
        Some(RequestId(2)),
        Some(ParticipantId(3)),
        Some(WorkId(4)),
    ) else {
        panic!("a source event makes a target");
    };
    assert_eq!(target.source_event_id, 8);
    assert_eq!(target.request_id, Some(RequestId(2)));
    assert_eq!(target.participant_id, ParticipantId(3));
    assert_eq!(target.work_id, Some(WorkId(4)));
}

#[test]
fn workspaces_are_created_in_the_scope_of_their_issue() {
    let command = workspace_command(
        "TG-1".into(),
        "t".into(),
        "o".into(),
        None,
        Some("a/b".into()),
        Some("main".into()),
    );
    assert_eq!(
        command,
        Command::DefineWorkspace {
            workspace: Workspace {
                scope: "linear:TG-1".into(),
                title: "t".into(),
                objective: "o".into(),
                linear_issue: LinearIssue {
                    identifier: "TG-1".into(),
                    url: None,
                    metadata: None
                },
                repository: Some(RepositoryRef {
                    repository: "a/b".into(),
                    revision: Some("main".into())
                }),
            }
        }
    );
    let Command::DefineWorkspace { workspace } = workspace_command(
        "TG-1".into(),
        "t".into(),
        "o".into(),
        Some("u".into()),
        None,
        Some("main".into()),
    ) else {
        panic!("workspaces are defined");
    };
    assert_eq!(workspace.repository, None);
    assert_eq!(workspace.linear_issue.url.as_deref(), Some("u"));
}

#[test]
fn scopes_are_selected_in_order() {
    let explicit = Some("linear:TG-1".to_owned());
    let environment = Some("linear:TG-2".to_owned());
    assert_eq!(selected_scope(explicit.clone(), environment.clone()), explicit);
    assert_eq!(selected_scope(Some(String::new()), environment.clone()), Some(String::new()));
    assert_eq!(selected_scope(None, environment.clone()), environment);
    assert_eq!(selected_scope(None, Some("  ".into())), None);
    assert_eq!(selected_scope(None, None), None);
}

fn repository() -> RepositoryContext {
    RepositoryContext {
        root: "/work/clarity".into(),
        identity: "antidmg/clarity".into(),
        revision: Some("abc".into()),
    }
}

fn address() -> Address {
    Address { text: "127.0.0.1:7331".into(), port: 7331, loopback: true }
}

#[test]
fn endpoints_are_loopback_addresses() {
    let endpoint = "http://127.0.0.1:7331";
    assert_eq!(endpoint_authority(endpoint).as_deref(), Some("127.0.0.1:7331"));
    assert_eq!(endpoint_authority("https://127.0.0.1:7331"), None);
    let local = address();
    assert_eq!(endpoint_address(endpoint, Some(&local)), Ok(&local));
    let wrong = Err(CliError::InvalidEndpoint(endpoint.into()));
    assert_eq!(endpoint_address(endpoint, None), wrong);
    let outside = Address { loopback: false, ..address() };
    assert_eq!(endpoint_address(endpoint, Some(&outside)), wrong);
    assert_eq!(
        endpoint_address("ftp://127.0.0.1:7331", Some(&local)),
        Err(CliError::InvalidEndpoint("ftp://127.0.0.1:7331".into()))
    );
    assert_eq!(client_endpoint("http://127.0.0.1:7331//"), "http://127.0.0.1:7331");
}

fn record(pid: u32) -> DaemonRecord {
    DaemonRecord {
        endpoint: "http://127.0.0.1:7331".into(),
        pid,
        owner_token: Some("ours".into()),
        repository: Some("antidmg/clarity".into()),
        protocol_version: Some(DAEMON_PROTOCOL_VERSION),
        build_id: Some("current".into()),
    }
}

#[test]
fn records_lie_below_the_root() {
    for root in ["/a", "/a/", "", "a/b"] {
        let expected = std::path::Path::new(root).join(".clarity/daemon.json");
        let style = PathStyle::of_this_machine();
        assert_eq!(record_path(root, style), expected.display().to_string(), "{root}");
    }
    let cases = [
        ("/a", PathStyle::Slash, "/a/.clarity/daemon.json"),
        ("/a/", PathStyle::Slash, "/a/.clarity/daemon.json"),
        ("", PathStyle::Slash, ".clarity/daemon.json"),
        ("C:", PathStyle::Slash, "C:/.clarity/daemon.json"),
        ("C:/a", PathStyle::Backslash, "C:/a\\.clarity/daemon.json"),
        ("C:\\a\\", PathStyle::Backslash, "C:\\a\\.clarity/daemon.json"),
        ("C:/", PathStyle::Backslash, "C:/.clarity/daemon.json"),
        ("C:", PathStyle::Backslash, "C:.clarity/daemon.json"),
        ("\\\\server\\share", PathStyle::Backslash, "\\\\server\\share\\.clarity/daemon.json"),
    ];
    for (root, style, expected) in cases {
        assert_eq!(record_path(root, style), expected, "{root}");
    }
    let verbatim = record_path("\\\\?\\C:\\a", PathStyle::Backslash);
    assert!(verbatim.starts_with("\\\\?\\C:\\a"));
    assert!(verbatim.ends_with("daemon.json"));
}

#[test]
fn recovery_names_the_process_or_the_port() {
    let endpoint = "http://127.0.0.1:7331";
    let local = address();
    assert_eq!(
        daemon_recovery_command(endpoint, "/work/clarity/.clarity/daemon.json", Some(&record(42)), None),
        Ok("kill 42 && rm /work/clarity/.clarity/daemon.json".into())
    );
    assert_eq!(
        daemon_recovery_command(endpoint, "/work/clarity/.clarity/daemon.json", None, Some(&local)),
        Ok("kill $(lsof -tiTCP:7331 -sTCP:LISTEN)".into())
    );
    assert_eq!(
        daemon_recovery_command(endpoint, "/work/clarity/.clarity/daemon.json", None, None),
        Err(CliError::InvalidEndpoint(endpoint.into()))
    );
}

fn context(record: Option<DaemonRecord>) -> DaemonContext {
    DaemonContext {
        endpoint: "http://127.0.0.1:7331".into(),
        record_file: record_path("/work/clarity", PathStyle::Slash),
        repository: "antidmg/clarity".into(),
        build_id: "current".into(),
        record,
        address: Some(address()),
        owner_token: "new".into(),
    }
}

fn identified(owner_token: &str, build_id: &str) -> DaemonProbe {
    DaemonProbe::Identified(DaemonIdentity {
        owner_token: owner_token.into(),
        repository: "antidmg/clarity".into(),
        protocol_version: DAEMON_PROTOCOL_VERSION,
        build_id: build_id.into(),
    })
}

#[test]
fn own_daemons_are_reused_and_foreign_ones_left_alone() {
    assert_eq!(
        context(Some(record(42))).start(&identified("ours", "current")),
        DaemonStep::Done { disposition: DaemonDisposition::OwnedCompatible }
    );
    assert_eq!(
        context(None).start(&identified("theirs", "current")),
        DaemonStep::Fail {
            error: CliError::ForeignDaemon {
                endpoint: "http://127.0.0.1:7331".into(),
                recovery: "kill $(lsof -tiTCP:7331 -sTCP:LISTEN)".into()
            }
        }
    );
    let mut unreachable = context(None);
    unreachable.address = None;
    assert_eq!(
        unreachable.start(&DaemonProbe::ForeignResponse),
        DaemonStep::Fail { error: CliError::InvalidEndpoint("http://127.0.0.1:7331".into()) }
    );
}

#[test]
fn stale_daemons_are_stopped_and_replaced() {
    let context = context(Some(record(42)));
    assert_eq!(context.start(&DaemonProbe::Absent), DaemonStep::Remove);
    let step = context.start(&identified("ours", "old"));
    let DaemonStep::Stop { notice, pid } = step else {
        panic!("a stale daemon is stopped");
    };
    assert_eq!(pid, 42);
    assert_eq!(
        notice,
        "daemon compatibility mismatch (protocol 1, build old); replacing owned daemon with protocol 1, build current"
    );
    assert_eq!(
        context.stopped(42, false),
        DaemonStep::Fail { error: CliError::DaemonStart("process 42".into()) }
    );
    assert_eq!(context.stopped(42, true), DaemonStep::ProbeStopped { left: PROBES });

    let mut probes: u32 = 0;
    let mut step = context.stopped(42, true);
    loop {
        step = match step {
            DaemonStep::ProbeStopped { left } => {
                probes += 1;
                context.probed_stopped(left, &DaemonProbe::ForeignResponse)
            }
            DaemonStep::PauseStopped { left } => context.paused_stopped(left),
            other => {
                step = other;
                break;
            }
        };
    }
    assert_eq!(probes, 40);
    assert_eq!(step, DaemonStep::ProbeGone);
    assert_eq!(
        context.probed_gone(&DaemonProbe::ForeignResponse),
        DaemonStep::Fail { error: CliError::DaemonStart("http://127.0.0.1:7331".into()) }
    );
    assert_eq!(
        context.probed_stopped(40, &DaemonProbe::Absent),
        DaemonStep::ProbeGone
    );
    assert_eq!(context.probed_gone(&DaemonProbe::Absent), DaemonStep::Remove);
    assert_eq!(
        context.removed(),
        DaemonStep::Launch {
            address: "127.0.0.1:7331".into(),
            owner_token: "new".into(),
            repository: "antidmg/clarity".into()
        }
    );
}

#[test]
fn legacy_daemons_are_upgraded() {
    let legacy = DaemonRecord {
        endpoint: "http://127.0.0.1:7331".into(),
        pid: 41,
        owner_token: None,
        repository: None,
        protocol_version: None,
        build_id: None,
    };
    assert_eq!(
        context(Some(legacy)).start(&DaemonProbe::ForeignResponse),
        DaemonStep::Stop { notice: "upgrading checkout-owned legacy daemon".into(), pid: 41 }
    );
}

#[test]
fn launched_daemons_are_recorded_once_they_answer() {
    let context = context(None);
    let step = context.launched(77);
    assert_eq!(step, DaemonStep::ProbeStarted { pid: 77, left: 40 });
    assert_eq!(
        context.probed_started(77, 40, &identified("new", "old")),
        DaemonStep::CheckChild { pid: 77, left: 40 }
    );
    let DaemonStep::Write { record } =
        context.probed_started(77, 40, &identified("new", "current"))
    else {
        panic!("the daemon answers");
    };
    assert_eq!(record.pid, 77);
    assert_eq!(record.owner_token.as_deref(), Some("new"));
    assert_eq!(record.repository.as_deref(), Some("antidmg/clarity"));
    assert_eq!(record.protocol_version, Some(1));
    assert_eq!(record.build_id.as_deref(), Some("current"));
    assert_eq!(record.endpoint, "http://127.0.0.1:7331");
    assert_eq!(
        context.written(DaemonDisposition::Absent),
        DaemonStep::Done { disposition: DaemonDisposition::Absent }
    );
    let mut next = self::context(None);
    next.record = Some(record);
    assert_eq!(
        next.disposition(&identified("new", "current")),
        DaemonDisposition::OwnedCompatible
    );

    let mut probes: u32 = 0;
    let mut step = context.launched(77);
    loop {
        step = match step {
            DaemonStep::ProbeStarted { pid, left } => {
                probes += 1;
                context.probed_started(pid, left, &DaemonProbe::Absent)
            }
            DaemonStep::CheckChild { pid, left } => context.child_checked(pid, left, false),
            DaemonStep::PauseStarted { pid, left } => context.paused_started(pid, left),
            other => {
                step = other;
                break;
            }
        };
    }
    assert_eq!(probes, 40);
    let failed =
        DaemonStep::Fail { error: CliError::DaemonStart("http://127.0.0.1:7331".into()) };
    assert_eq!(step, failed);
    assert_eq!(context.child_checked(77, 40, true), failed);
    let token = new_owner_token();
    assert_eq!(token.len(), 36);
    assert_ne!(token, new_owner_token());
}

#[test]
fn probes_are_classified() {
    assert_eq!(classify_probe(ProbeReply::Silence), DaemonProbe::Absent);
    assert_eq!(classify_probe(ProbeReply::Failure), DaemonProbe::ForeignResponse);
    assert_eq!(classify_probe(ProbeReply::Success(None)), DaemonProbe::ForeignResponse);
    let DaemonProbe::Identified(identity) = identified("a", "b") else {
        panic!("an identity");
    };
    assert_eq!(
        classify_probe(ProbeReply::Success(Some(identity.clone()))),
        DaemonProbe::Identified(identity)
    );
}

#[test]
fn sessions_hand_on_their_scope_and_end_with_their_process() {
    let session = agent_session(AgentHarness::Amp, &repository(), vec!["--x".into(), "y z".into()]);
    assert_eq!(session.name, "amp");
    assert_eq!(session.child, vec!["amp".to_owned(), "--x".into(), "y z".into()]);
    assert_eq!(session.lease_seconds, 15);
    assert_eq!(session.manifest.harness, "amp");
    assert_eq!(session.manifest.repository.as_deref(), Some("antidmg/clarity"));
    assert_eq!(session.manifest.revision.as_deref(), Some("abc"));
    assert_eq!(session.manifest.worktree.as_deref(), Some("/work/clarity"));
    assert!(session.manifest.capabilities.is_empty());

    let environment = session_environment(ParticipantId(1), "http://e", "linear:TG-187");
    assert_eq!(
        environment,
        vec![
            (
                "CLARITY_PARTICIPANT_ID".to_owned(),
                "00000000-0000-0000-0000-000000000001".to_owned()
            ),
            ("CLARITY_ENDPOINT".to_owned(), "http://e".to_owned()),
            ("CLARITY_SCOPE".to_owned(), "linear:TG-187".to_owned()),
        ]
    );

    assert_eq!(heartbeat_seconds(15), 5);
    assert_eq!(heartbeat_seconds(5), 1);
    assert_eq!(heartbeat_seconds(0), 1);
    assert_eq!(heartbeat_seconds(300), 100);

    let conclude = |outcome| conclude(ParticipantId(7), outcome);
    let leave = Some(Command::Leave { participant_id: ParticipantId(7) });
    let end = conclude(SessionOutcome::Child { success: true, status: "exit 0".into() });
    assert!(end.abort_heartbeat && !end.kill_child && end.error.is_none());
    assert_eq!(end.farewell, leave);
    let end = conclude(SessionOutcome::Child { success: false, status: "exit 1".into() });
    assert_eq!(end.error, Some(CliError::Child("exit 1".into())));
    assert_eq!(end.farewell, leave);
    let end = conclude(SessionOutcome::Heartbeat { error: None });
    assert!(!end.abort_heartbeat && end.kill_child);
    assert_eq!(end.error, Some(CliError::HeartbeatStopped));
    assert_eq!(end.farewell, leave);
    let end = conclude(SessionOutcome::Heartbeat { error: Some(CliError::Request("x".into())) });
    assert_eq!(end.error, Some(CliError::Request("x".into())));
    let end = conclude(SessionOutcome::Interrupted);
    assert!(end.abort_heartbeat && end.kill_child);
    assert_eq!(end.error, Some(CliError::Interrupted));
    assert_eq!(end.farewell, leave);
    let end = conclude(SessionOutcome::NotStarted { reason: "gone".into() });
    assert!(!end.abort_heartbeat && !end.kill_child);
    assert_eq!(end.error, Some(CliError::Io("gone".into())));
    assert_eq!(end.farewell, leave);
    let end = conclude(SessionOutcome::WaitFailed { reason: "lost".into() });
    assert!(!end.abort_heartbeat && !end.kill_child && end.farewell.is_none());
    assert_eq!(end.error, Some(CliError::Io("lost".into())));
    let end = conclude(SessionOutcome::TaskFailed { reason: "panicked".into() });
    assert!(!end.abort_heartbeat && !end.kill_child && end.farewell.is_none());
    assert_eq!(end.error, Some(CliError::Task("panicked".into())));
}

#[test]
fn processes_get_their_words_unchanged() {
    let child = vec!["amp".to_string(), "--flag".into(), "".into(), "two words".into()];
    let started = launch(ParticipantId(7), "http://127.0.0.1:1", "linear:A-1", child.clone());
    assert_eq!(started.program, "amp");
    assert_eq!(started.arguments, child[1..]);
    assert_eq!(
        started.environment,
        session_environment(ParticipantId(7), "http://127.0.0.1:1", "linear:A-1")
    );
    let alone = launch(ParticipantId(7), "e", "s", vec!["true".into()]);
    assert_eq!(alone.program, "true");
    assert!(alone.arguments.is_empty());
}

fn issue() -> LinearAnswer {
    LinearAnswer {
        identifier: "TG-1".into(),
        title: "Title".into(),
        url: "https://linear.app/TG-1".into(),
        description: Some("Do it".into()),
        status: "Todo".into(),
        updated_at: Timestamp { seconds: 10, nanos: 0 },
    }
}

#[test]
fn linear_answers_are_the_issue_or_the_reason() {
    assert_eq!(linear_outcome("TG-1", Some(issue()), &vec!["x".into()]), Ok(issue()));
    assert_eq!(
        linear_outcome("TG-1", None, &vec![]),
        Err(CliError::Linear("issue TG-1 was not found".into()))
    );
    assert_eq!(
        linear_outcome("TG-1", None, &vec![String::new()]),
        Err(CliError::Linear("issue TG-1 was not found".into()))
    );
    assert_eq!(
        linear_outcome("TG-1", None, &vec!["a".into(), "b".into()]),
        Err(CliError::Linear("a; b".into()))
    );
}

#[test]
fn workspaces_are_defined_refreshed_or_kept() {
    let Ok(WorkspacePlan::Send { command, workspace }) =
        plan_workspace(None, Ok(issue()), &repository())
    else {
        panic!("an unknown workspace is defined");
    };
    assert_eq!(workspace.scope, "linear:TG-1");
    assert_eq!(workspace.objective, "Do it");
    assert_eq!(workspace.linear_issue.metadata.as_ref().unwrap().status, "Todo");
    assert_eq!(command, Command::DefineWorkspace { workspace: workspace.clone() });

    let mut known = workspace.clone();
    known.repository = Some(RepositoryRef { repository: "other/place".into(), revision: None });
    let Ok(WorkspacePlan::Send { command, workspace }) =
        plan_workspace(Some(known.clone()), Ok(issue()), &repository())
    else {
        panic!("a known workspace is refreshed");
    };
    assert_eq!(workspace.repository, known.repository);
    assert_eq!(command, Command::RefreshWorkspaceMetadata { workspace });

    let Ok(WorkspacePlan::Keep(kept)) = plan_workspace(
        Some(known.clone()),
        Err(CliError::MissingLinearApiKey),
        &repository(),
    ) else {
        panic!("a known workspace needs no key");
    };
    assert_eq!(kept, known);
    assert!(matches!(
        plan_workspace(None, Err(CliError::MissingLinearApiKey), &repository()),
        Err(CliError::MissingLinearApiKey)
    ));
    assert!(matches!(
        plan_workspace(Some(known), Err(CliError::Linear("x".into())), &repository()),
        Err(CliError::Linear(reason)) if reason == "x"
    ));
}

#[test]
fn bringing_a_repository_online_is_reported() {
    assert_eq!(
        up_report(&repository(), DaemonDisposition::OwnedCompatible, "127.0.0.1:7331", None),
        vec![
            "\nCLARITY\n".to_owned(),
            "Repository  antidmg/clarity".into(),
            "Daemon      reused at 127.0.0.1:7331".into(),
            "\nRun an agent task:\n  clarity run amp TG-187".into(),
        ]
    );
    let Ok(WorkspacePlan::Send { workspace, .. }) =
        plan_workspace(None, Ok(issue()), &repository())
    else {
        panic!("an unknown workspace is defined");
    };
    let lines = up_report(
        &repository(),
        DaemonDisposition::Absent,
        "127.0.0.1:7331",
        Some(&workspace),
    );
    assert_eq!(lines[2], "Daemon      started at 127.0.0.1:7331");
    assert_eq!(lines[3], "Workspace   TG-1 · Title (compatibility selection)");
    assert_eq!(
        lines[4],
        "\n`clarity up TG-*` is deprecated; use `clarity run amp TG-*`."
    );
    assert_eq!(lines.len(), 6);
}

#[test]
fn command_line_errors_say_what_happened() {
    let cases = [
        (
            CliError::Bootstrap(BootstrapError::Git("x".into())),
            "Git command failed: x",
        ),
        (CliError::Request("x".into()), "request failed: x"),
        (
            CliError::Runtime(RuntimeError::InvalidSequence(-4)),
            "runtime failed: stored event has a negative sequence: -4",
        ),
        (CliError::Io("x".into()), "I/O failed: x"),
        (CliError::Address("x".into()), "invalid listen address: x"),
        (CliError::Rejected("x".into()), "daemon rejected command: x"),
        (CliError::MissingParticipant, "session join returned no participant identity"),
        (CliError::Child("x".into()), "child process exited unsuccessfully: x"),
        (CliError::HeartbeatStopped, "session heartbeat stopped unexpectedly"),
        (CliError::Interrupted, "session interrupted"),
        (CliError::Task("x".into()), "session task failed: x"),
        (
            CliError::MissingLinearApiKey,
            "LINEAR_API_KEY is not set; create a Linear personal API key and export LINEAR_API_KEY",
        ),
        (CliError::Linear("x".into()), "Linear API rejected the request: x"),
        (
            CliError::InvalidIssue("x".into()),
            "invalid Linear issue identifier `x`; expected a value such as TG-183",
        ),
        (
            CliError::ForeignDaemon { endpoint: "e".into(), recovery: "r".into() },
            "daemon at e is not owned by or compatible with this checkout; recover with exactly: `r`",
        ),
        (
            CliError::InvalidEndpoint("x".into()),
            "configured endpoint must be a loopback HTTP address: x",
        ),
        (
            CliError::DaemonStart("x".into()),
            "daemon failed to start at x; the HTTP port may already be unavailable",
        ),
    ];
    for (error, message) in cases {
        assert_eq!(error.message(), message);
    }
}
