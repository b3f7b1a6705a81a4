use clarity::coordination::decide::lease_fits;
use clarity::coordination::{
    stored_request_identity, CoordinationState, Decision, DecisionContext, StoredSignal,
};
use clarity::paths::PathStyle;
use clarity::protocol::{
    ArtifactKind, ArtifactRef, AttentionRequest, Command, DirectionId, DirectionTarget,
    EnvironmentManifest, EventEnvelope, EventKind, LeaveReason, LinearIssue, LinearMetadata,
    ParticipantId, PublishedSignal, ReleaseReason, RepositoryRef, RequestId, RequestIdentity,
    Signal, WorkId, Workspace, WorkspaceLifecycle,
};
use clarity::ranking::{artifact_rank, attention_rank};
use clarity::signals::{
    attention_signal, legacy_action, signal_artifacts, signal_requires_ownership,
    signal_requires_work, validate_signal, validate_text,
};
use clarity::time::{Timestamp, LAST_SECOND};

#[test]
fn legacy_attention_events_replay_with_actionable_fallbacks() {
    let stored: serde_json::Value =
        serde_json::from_str(r#"{"kind":"blocked","summary":"Credentials are unavailable"}"#)
            .unwrap();
    assert_eq!(stored["kind"], "blocked");
    let blocked = Signal::Blocked {
        identity: None,
        summary: stored["summary"].as_str().unwrap().into(),
        requested_action: String::new(),
        evidence: vec![],
    };
    let stored: serde_json::Value = serde_json::from_str(
        r#"{"kind":"review_requested","summary":"Legacy change is ready","evidence":[]}"#,
    )
    .unwrap();
    assert_eq!(stored["kind"], "review_requested");
    assert!(stored["evidence"].as_array().unwrap().is_empty());
    let review = Signal::ReviewRequested {
        identity: None,
        summary: stored["summary"].as_str().unwrap().into(),
        requested_action: String::new(),
        known_risk: String::new(),
        evidence: vec![],
    };

    let (_, blocked_request, _) = attention_signal(&blocked).unwrap();
    assert_eq!(
        validate_signal(&blocked),
        Err("attention request needs request identity".into())
    );
    assert!(matches!(
        blocked_request,
        AttentionRequest::Intervention { requested_action, .. }
            if !requested_action.trim().is_empty()
    ));
    let (_, review_request, _) = attention_signal(&review).unwrap();
    assert!(matches!(
        review_request,
        AttentionRequest::Review { requested_action, known_risk, .. }
            if !requested_action.trim().is_empty() && !known_risk.trim().is_empty()
    ));
    let replayed = StoredSignal {
        sequence: 1,
        event_id: clarity::identity::new_event_id(),
        scope: "linear:TG-192".into(),
        published: PublishedSignal {
            participant_id: ParticipantId::new(),
            work_id: None,
            signal: blocked,
            published_at: NOW,
        },
    };
    assert_eq!(stored_request_identity(&replayed), None);
}

#[test]
fn actionable_requests_reject_blank_artifact_uris_at_the_protocol_boundary() {
    let blank = ArtifactRef { kind: ArtifactKind::Revision, uri: String::new(), digest: None };
    let decision = Signal::DecisionNeeded {
        identity: Some(RequestIdentity {
            request_id: RequestId::new(),
            request_key: "decision".into(),
            supersedes_request_id: None,
        }),
        summary: "Choose a path".into(),
        choices: vec![],
        recommendation: None,
        evidence: vec![blank.clone()],
    };
    let review = Signal::ReviewRequested {
        identity: Some(RequestIdentity {
            request_id: RequestId::new(),
            request_key: "review".into(),
            supersedes_request_id: None,
        }),
        summary: "Inspect the change".into(),
        requested_action: "Mark reviewed or request changes".into(),
        known_risk: "None identified".into(),
        evidence: vec![
            blank,
            ArtifactRef { kind: ArtifactKind::TestReceipt, uri: String::new(), digest: None },
        ],
    };

    assert_eq!(
        validate_signal(&decision),
        Err("artifact URI must not be empty".into())
    );
    assert_eq!(
        validate_signal(&review),
        Err("artifact URI must not be empty".into())
    );
}

const NOW: Timestamp = Timestamp { seconds: 1_760_000_000, nanos: 0 };

/// A state with a log that numbers its events.
struct Log {
    state: CoordinationState,
    next: u64,
    events: Vec<EventEnvelope>,
}

impl Log {
    fn new() -> Self {
        Log { state: CoordinationState::new(), next: 1, events: Vec::new() }
    }

    fn put(&mut self, scope: &str, event: EventKind) {
        let envelope = EventEnvelope {
            sequence: self.next,
            event_id: 1000 + self.next as u128,
            scope: scope.into(),
            emitted_at: NOW,
            event,
        };
        assert!(self.state.can_apply(&envelope));
        self.state.apply(&envelope);
        self.events.push(envelope);
        self.next += 1;
    }

    fn decide(&self, command: Command, context: &DecisionContext) -> Decision {
        assert!(lease_fits(&command, &context.now));
        self.state.decide(command, context)
    }

    fn run(&mut self, command: Command, context: &DecisionContext) -> Decision {
        let decision = self.decide(command, context);
        let events = match &decision {
            Decision::Accepted { events, .. } => events.clone(),
            Decision::Conflict { events, .. } => events.clone(),
            Decision::Rejected(_) => Vec::new(),
        };
        for event in events {
            self.put(&event.scope, event.event);
        }
        decision
    }

    fn reason(&self, command: Command) -> String {
        match self.decide(command, &context(1)) {
            Decision::Rejected(reason) => reason,
            other => panic!("not rejected: {other:?}"),
        }
    }
}

fn context(n: u128) -> DecisionContext {
    DecisionContext {
        now: NOW,
        participant_id: ParticipantId(n),
        work_id: WorkId(n),
        direction_id: DirectionId(n),
        paths: PathStyle::Slash,
    }
}

fn manifest() -> EnvironmentManifest {
    EnvironmentManifest {
        harness: "h".into(),
        repository: None,
        revision: None,
        worktree: None,
        capabilities: vec![],
    }
}

fn join_command(scope: &str, name: &str, lease_seconds: u64) -> Command {
    Command::Join { scope: scope.into(), name: name.into(), manifest: manifest(), lease_seconds }
}

fn claim_command(participant: u128, resources: &[&str]) -> Command {
    Command::ClaimWork {
        participant_id: ParticipantId(participant),
        summary: "work".into(),
        resources: resources.iter().map(|resource| resource.to_string()).collect(),
    }
}

fn request(id: u128, key: &str) -> Signal {
    Signal::HelpNeeded {
        identity: Some(RequestIdentity {
            request_id: RequestId(id),
            request_key: key.into(),
            supersedes_request_id: None,
        }),
        summary: "help".into(),
        requested_action: "act".into(),
        evidence: vec![],
    }
}

fn publish_command(participant: u128, work: Option<u128>, signal: Signal) -> Command {
    Command::PublishSignal {
        participant_id: ParticipantId(participant),
        work_id: work.map(WorkId),
        signal,
    }
}

/// Participants 1 and 2 in scope `s`, participant 3 in scope `t`; 1 has work 10 on `src`.
fn populated() -> Log {
    let mut log = Log::new();
    log.run(join_command("s", "one", 60), &context(1));
    log.run(join_command("s", "two", 60), &context(2));
    log.run(join_command("t", "three", 60), &context(3));
    log.run(claim_command(1, &["src"]), &context(10));
    log
}

fn workspace(identifier: &str) -> Workspace {
    Workspace {
        scope: format!("linear:{identifier}"),
        title: "t".into(),
        objective: "o".into(),
        linear_issue: LinearIssue { identifier: identifier.into(), url: None, metadata: None },
        repository: Some(RepositoryRef { repository: "a/b".into(), revision: None }),
    }
}

#[test]
fn workspaces_must_be_complete() {
    let log = Log::new();
    let define = |change: fn(&mut Workspace)| {
        let mut given = workspace("TG-1");
        change(&mut given);
        log.reason(Command::DefineWorkspace { workspace: given })
    };
    assert_eq!(define(|w| w.scope = " ".into()), "scope must not be empty");
    assert_eq!(define(|w| w.title = "".into()), "title must not be empty");
    assert_eq!(define(|w| w.objective = "\t".into()), "objective must not be empty");
    assert_eq!(
        define(|w| w.linear_issue.identifier = "".into()),
        "Linear issue identifier must not be empty"
    );
    assert_eq!(
        define(|w| w.scope = "linear:TG-2".into()),
        "workspace scope must be linear:<issue identifier>"
    );
    assert_eq!(
        define(|w| w.repository.as_mut().unwrap().repository = " ".into()),
        "repository must not be empty"
    );
}

#[test]
fn workspaces_are_defined_once_and_refreshed_forward() {
    let mut log = Log::new();
    let first = workspace("TG-1");
    assert_eq!(
        log.reason(Command::RefreshWorkspaceMetadata { workspace: first.clone() }),
        "workspace must be defined before metadata refresh"
    );
    log.run(Command::DefineWorkspace { workspace: first.clone() }, &context(1));
    assert_eq!(log.events.len(), 1);
    log.run(Command::DefineWorkspace { workspace: first.clone() }, &context(1));
    assert_eq!(log.events.len(), 1);
    let mut other = first.clone();
    other.title = "other".into();
    assert_eq!(
        log.reason(Command::DefineWorkspace { workspace: other.clone() }),
        "workspace is already defined with different metadata"
    );
    assert_eq!(
        log.reason(Command::RefreshWorkspaceMetadata { workspace: other.clone() }),
        "refreshed Linear metadata must include source state"
    );
    let mut moved = other.clone();
    moved.repository = None;
    assert_eq!(
        log.reason(Command::RefreshWorkspaceMetadata { workspace: moved }),
        "workspace identity cannot change during refresh"
    );
    let dated = |seconds: i64, status: &str| {
        let mut given = other.clone();
        given.linear_issue.metadata = Some(LinearMetadata {
            status: status.into(),
            updated_at: Timestamp { seconds, nanos: 0 },
        });
        given
    };
    assert_eq!(
        log.reason(Command::RefreshWorkspaceMetadata { workspace: dated(5, " ") }),
        "Linear status must not be empty"
    );
    log.run(Command::RefreshWorkspaceMetadata { workspace: dated(5, "Todo") }, &context(1));
    assert_eq!(log.events.len(), 2);
    assert_eq!(
        log.reason(Command::RefreshWorkspaceMetadata { workspace: dated(4, "Done") }),
        "Linear metadata refresh is older than cached state"
    );
    assert_eq!(
        log.reason(Command::RefreshWorkspaceMetadata { workspace: dated(5, "Done") }),
        "Linear metadata changed without a newer source timestamp"
    );
    log.run(Command::RefreshWorkspaceMetadata { workspace: dated(5, "Todo") }, &context(1));
    assert_eq!(log.events.len(), 2);
    log.run(Command::RefreshWorkspaceMetadata { workspace: dated(6, "Done") }, &context(1));
    assert_eq!(log.state.snapshot("linear:TG-1").workspace, Some(dated(6, "Done")));
}

#[test]
fn leases_are_bounded() {
    let log = populated();
    assert_eq!(log.reason(join_command("", "n", 60)), "scope must not be empty");
    assert_eq!(log.reason(join_command("s", " ", 60)), "name must not be empty");
    for lease_seconds in [0, 4, 301, u64::MAX] {
        assert_eq!(
            log.reason(join_command("s", "n", lease_seconds)),
            "lease must be between 5 and 300 seconds"
        );
        assert_eq!(
            log.reason(Command::RenewPresence { participant_id: ParticipantId(1), lease_seconds }),
            "lease must be between 5 and 300 seconds"
        );
    }
    assert_eq!(
        log.reason(Command::RenewPresence { participant_id: ParticipantId(9), lease_seconds: 0 }),
        "participant is absent or its lease expired"
    );
    let last = Timestamp { seconds: LAST_SECOND, nanos: 0 };
    assert!(!lease_fits(&join_command("s", "n", 5), &last));
    assert!(lease_fits(&join_command("s", "n", 4), &last));
    assert!(lease_fits(&claim_command(1, &["a"]), &last));
}

#[test]
fn claims_are_exclusive_within_a_scope() {
    let mut log = populated();
    assert_eq!(
        log.reason(claim_command(9, &["x"])),
        "participant is absent or its lease expired"
    );
    assert_eq!(
        log.reason(Command::ClaimWork {
            participant_id: ParticipantId(1),
            summary: " ".into(),
            resources: vec![]
        }),
        "summary must not be empty"
    );
    assert_eq!(
        log.reason(claim_command(1, &["a", ".."])),
        "resource must not escape the repository root"
    );
    assert_eq!(
        log.reason(claim_command(1, &["/a"])),
        "resource must be a repository-relative path"
    );
    assert_eq!(
        log.reason(claim_command(1, &[".", ""])),
        "a work claim needs at least one resource"
    );
    let Decision::Conflict { conflicts, .. } =
        log.run(claim_command(2, &["docs", "src/lib.rs"]), &context(11))
    else {
        panic!("the claims overlap");
    };
    assert_eq!(conflicts.len(), 1);
    assert_eq!(conflicts[0].work_id, WorkId(10));
    assert_eq!(conflicts[0].resources, vec!["src".to_owned()]);
    assert_eq!(log.state.snapshot("s").metrics.prevented_overlaps, 1);
    assert_eq!(log.state.snapshot("s").active_work.len(), 1);
    assert!(matches!(
        log.run(claim_command(3, &["src"]), &context(12)),
        Decision::Accepted { work_id: Some(WorkId(12)), .. }
    ));
    assert!(matches!(
        log.run(claim_command(2, &["docs"]), &context(13)),
        Decision::Accepted { .. }
    ));
    assert_eq!(log.state.snapshot("s").active_work.len(), 2);
}

#[test]
fn publications_are_checked() {
    let log = populated();
    let working = || Signal::Working { summary: "w".into() };
    assert_eq!(
        log.reason(publish_command(9, None, working())),
        "participant is absent or its lease expired"
    );
    assert_eq!(
        log.reason(publish_command(1, None, Signal::Working { summary: "".into() })),
        "summary must not be empty"
    );
    assert_eq!(
        log.reason(publish_command(1, None, working())),
        "signal requires an active work claim"
    );
    assert_eq!(
        log.reason(publish_command(1, Some(99), working())),
        "work claim is not active"
    );
    assert_eq!(
        log.reason(publish_command(3, Some(10), working())),
        "work claim belongs to a different workspace"
    );
    assert_eq!(
        log.reason(publish_command(2, Some(10), working())),
        "signal requires ownership of the work claim"
    );
    let mut log = log;
    assert!(matches!(
        log.run(publish_command(2, Some(10), request(1, "k")), &context(1)),
        Decision::Accepted { work_id: Some(WorkId(10)), .. }
    ));
    assert_eq!(
        log.reason(publish_command(2, Some(10), request(1, "other"))),
        "request ID already exists"
    );
    let superseding = |id: u128, superseded: u128| {
        let Signal::HelpNeeded { identity, summary, requested_action, evidence } = request(id, "n")
        else {
            panic!("a request for help");
        };
        let mut identity = identity.unwrap();
        identity.supersedes_request_id = Some(RequestId(superseded));
        Signal::HelpNeeded { identity: Some(identity), summary, requested_action, evidence }
    };
    assert_eq!(
        log.reason(publish_command(2, Some(10), superseding(2, 2))),
        "request cannot supersede itself"
    );
    assert_eq!(
        log.reason(publish_command(2, Some(10), superseding(2, 7))),
        "superseded request does not exist"
    );
    assert_eq!(
        log.reason(publish_command(2, None, superseding(2, 1))),
        "superseded request does not exist"
    );
    assert_eq!(
        log.reason(publish_command(1, Some(10), superseding(2, 1))),
        "superseded request does not exist"
    );
    log.run(publish_command(2, Some(10), superseding(2, 1)), &context(1));
    let open = log.state.attention();
    assert_eq!(open.len(), 1);
    assert_eq!(open[0].request_id, RequestId(2));
}

#[test]
fn done_releases_the_work() {
    let mut log = populated();
    let done = Signal::Done { summary: "d".into(), evidence: vec![] };
    let Decision::Accepted { events, .. } = log.run(publish_command(1, Some(10), done), &context(1))
    else {
        panic!("done is accepted");
    };
    assert_eq!(events.len(), 2);
    assert!(matches!(
        events[1].event,
        EventKind::WorkReleased {
            work_id: WorkId(10),
            previous_owner: ParticipantId(1),
            reason: ReleaseReason::Completed
        }
    ));
    assert!(log.state.snapshot("s").active_work.is_empty());
}

#[test]
fn keys_supersede_only_in_their_own_context() {
    let mut log = populated();
    log.run(claim_command(2, &["docs"]), &context(11));
    log.run(publish_command(1, Some(10), request(1, "k")), &context(1));
    log.run(publish_command(2, Some(11), request(2, "k")), &context(1));
    log.run(publish_command(1, None, request(3, "k")), &context(1));
    log.run(publish_command(3, None, request(4, "k")), &context(1));
    let ids = |log: &Log| {
        log.state.attention().iter().map(|item| item.request_id.0).collect::<Vec<_>>()
    };
    assert_eq!(ids(&log), [1, 2, 3, 4]);
    log.run(publish_command(1, Some(10), request(5, "k")), &context(1));
    assert_eq!(ids(&log), [2, 3, 5, 4]);
    log.run(
        publish_command(1, Some(10), Signal::Working { summary: "quiet".into() }),
        &context(1),
    );
    log.run(
        publish_command(
            1,
            Some(10),
            Signal::Checkpoint { summary: "quiet".into(), artifacts: vec![] },
        ),
        &context(1),
    );
    log.run(Command::Leave { participant_id: ParticipantId(1) }, &context(1));
    assert_eq!(ids(&log), [2, 3, 5, 4]);
}

#[test]
fn resolution_closes_exactly_one_request() {
    let mut log = populated();
    log.run(publish_command(2, Some(10), request(1, "a")), &context(1));
    log.run(publish_command(2, None, request(2, "b")), &context(1));
    let resolve = |participant: u128, id: u128, summary: &str| Command::ResolveAttention {
        participant_id: ParticipantId(participant),
        request_id: RequestId(id),
        summary: summary.into(),
    };
    assert_eq!(
        log.reason(resolve(9, 1, "x")),
        "participant is absent or its lease expired"
    );
    assert_eq!(log.reason(resolve(1, 1, " ")), "summary must not be empty");
    assert_eq!(log.reason(resolve(1, 9, "x")), "request does not exist");
    assert_eq!(log.reason(resolve(1, 2, "x")), "participant cannot resolve this request");
    assert_eq!(log.reason(resolve(3, 1, "x")), "participant cannot resolve this request");
    assert!(matches!(
        log.run(resolve(1, 1, "the owner of the work"), &context(1)),
        Decision::Accepted { work_id: Some(WorkId(10)), .. }
    ));
    assert_eq!(log.reason(resolve(2, 1, "x")), "request is no longer open");
    let open = log.state.attention();
    assert_eq!(open.len(), 1);
    assert_eq!(open[0].request_id, RequestId(2));
    log.run(publish_command(2, None, request(3, "b")), &context(1));
    assert_eq!(log.reason(resolve(2, 2, "x")), "request is no longer open");
}

#[test]
fn directions_name_open_requests() {
    let mut log = populated();
    log.run(publish_command(1, Some(10), request(1, "a")), &context(1));
    log.run(publish_command(1, Some(10), request(2, "b")), &context(1));
    let item = log.state.attention()[0].clone();
    let intervene = |target: Option<DirectionTarget>| Command::Intervene {
        scope: "s".into(),
        message: "m".into(),
        author: "a".into(),
        target,
    };
    let target = DirectionTarget {
        request_id: Some(item.request_id),
        source_event_id: item.source_event_id,
        participant_id: item.participant_id,
        work_id: item.work_id,
    };
    for (scope, message, author, reason) in [
        (" ", "m", "a", "scope must not be empty"),
        ("s", "", "a", "message must not be empty"),
        ("s", "m", "\n", "author must not be empty"),
    ] {
        assert_eq!(
            log.reason(Command::Intervene {
                scope: scope.into(),
                message: message.into(),
                author: author.into(),
                target: None
            }),
            reason
        );
    }
    let unknown = "direction target does not identify a source request in this workspace";
    for change in [
        (|t: &mut DirectionTarget| t.request_id = None) as fn(&mut DirectionTarget),
        |t| t.request_id = Some(RequestId(2)),
        |t| t.source_event_id = 5,
        |t| t.participant_id = ParticipantId(2),
        |t| t.work_id = None,
    ] {
        let mut wrong = target.clone();
        change(&mut wrong);
        assert_eq!(log.reason(intervene(Some(wrong))), unknown);
    }
    log.run(intervene(Some(target.clone())), &context(20));
    assert_eq!(log.reason(intervene(Some(target))), unknown);
    let open = log.state.attention();
    assert_eq!(open.len(), 1);
    assert_eq!(open[0].request_id, RequestId(2));
    assert_eq!(log.state.snapshot("s").metrics.human_interventions, 1);
    log.run(intervene(None), &context(21));
    assert_eq!(log.state.attention().len(), 1);
    assert_eq!(log.state.snapshot("s").metrics.human_interventions, 2);
}

#[test]
fn directions_are_delivered_once_and_consumed_one_by_one() {
    let mut log = populated();
    log.run(
        Command::Intervene {
            scope: "s".into(),
            message: "m".into(),
            author: "a".into(),
            target: None,
        },
        &context(30),
    );
    let deliver =
        |participant: u128| Command::DeliverDirections { participant_id: ParticipantId(participant) };
    let consume = |participant: u128, direction: u128| Command::ConsumeDirection {
        participant_id: ParticipantId(participant),
        direction_id: DirectionId(direction),
    };
    assert_eq!(log.reason(deliver(9)), "participant is absent or its lease expired");
    assert_eq!(
        log.reason(consume(9, 30)),
        "participant is absent or its lease expired"
    );
    assert_eq!(log.reason(consume(1, 31)), "direction does not exist");
    assert_eq!(
        log.reason(consume(1, 30)),
        "direction was not delivered to this participant"
    );
    let before = log.events.len();
    for participant in [1, 2, 3, 1] {
        log.run(deliver(participant), &context(1));
    }
    assert_eq!(log.events.len(), before + 2);
    assert_eq!(log.state.directions_for(ParticipantId(1)).len(), 1);
    assert_eq!(log.state.directions_for(ParticipantId(2)).len(), 1);
    assert!(log.state.directions_for(ParticipantId(3)).is_empty());
    assert!(log.state.directions_for(ParticipantId(9)).is_empty());
    log.run(consume(1, 30), &context(1));
    let after = log.events.len();
    log.run(consume(1, 30), &context(1));
    assert_eq!(log.events.len(), after);
    assert!(log.state.directions_for(ParticipantId(1)).is_empty());
    let pending = log.state.directions_for(ParticipantId(2));
    assert_eq!(pending.len(), 1);
    assert_eq!(pending[0].deliveries.len(), 2);
    assert_eq!(pending[0].deliveries[0].consumed_at, Some(NOW));
    assert_eq!(pending[0].deliveries[1].consumed_at, None);
}

#[test]
fn directions_follow_the_work_of_who_is_gone() {
    let mut log = populated();
    log.run(publish_command(1, Some(10), request(1, "a")), &context(1));
    let item = log.state.attention()[0].clone();
    log.run(
        Command::Intervene {
            scope: "s".into(),
            message: "m".into(),
            author: "a".into(),
            target: Some(DirectionTarget {
                request_id: Some(item.request_id),
                source_event_id: item.source_event_id,
                participant_id: item.participant_id,
                work_id: item.work_id,
            }),
        },
        &context(40),
    );
    let deliver = Command::DeliverDirections { participant_id: ParticipantId(2) };
    log.run(deliver.clone(), &context(1));
    assert!(log.state.directions_for(ParticipantId(2)).is_empty());
    log.run(Command::Leave { participant_id: ParticipantId(1) }, &context(1));
    log.run(deliver.clone(), &context(1));
    assert!(log.state.directions_for(ParticipantId(2)).is_empty());
    log.run(claim_command(2, &["src"]), &context(10));
    log.run(deliver, &context(1));
    assert_eq!(log.state.directions_for(ParticipantId(2)).len(), 1);
}

#[test]
fn departures_release_all_work() {
    let mut log = populated();
    log.run(claim_command(1, &["docs"]), &context(11));
    log.run(claim_command(2, &["tests"]), &context(12));
    assert_eq!(
        log.reason(Command::Leave { participant_id: ParticipantId(9) }),
        "participant does not exist"
    );
    let Decision::Accepted { events, .. } =
        log.run(Command::Leave { participant_id: ParticipantId(1) }, &context(1))
    else {
        panic!("leaving is accepted");
    };
    assert_eq!(events.len(), 3);
    assert!(matches!(
        events[0].event,
        EventKind::WorkReleased {
            work_id: WorkId(10),
            reason: ReleaseReason::ParticipantLeft,
            ..
        }
    ));
    assert!(matches!(
        events[2].event,
        EventKind::ParticipantLeft { reason: LeaveReason::Graceful, .. }
    ));
    let snapshot = log.state.snapshot("s");
    assert_eq!(snapshot.participants.len(), 1);
    assert_eq!(snapshot.active_work.len(), 1);
    assert_eq!(snapshot.active_work[0].id, WorkId(12));
    assert_eq!(
        log.reason(Command::Leave { participant_id: ParticipantId(1) }),
        "participant does not exist"
    );
}

#[test]
fn expiry_comes_with_the_end_of_the_lease() {
    let mut log = populated();
    let end = Timestamp { seconds: NOW.seconds + 60, nanos: 0 };
    assert!(log.state.expire(Timestamp { seconds: end.seconds - 1, nanos: 999_999_999 }).is_empty());
    let events = log.state.expire(end);
    assert_eq!(events.len(), 4);
    assert!(matches!(
        events[0].event,
        EventKind::WorkReleased { reason: ReleaseReason::LeaseExpired, .. }
    ));
    for event in events {
        log.put(&event.scope, event.event);
    }
    assert!(log.state.expire(end).is_empty());
    assert!(log.state.snapshot("s").participants.is_empty());
    assert!(log.state.snapshot("s").active_work.is_empty());
    let mut late = context(1);
    late.now = end;
    let mut fresh = populated();
    assert!(matches!(
        fresh.run(claim_command(1, &["x"]), &late),
        Decision::Rejected(reason) if reason == "participant is absent or its lease expired"
    ));
}

#[test]
fn replaying_the_log_rebuilds_the_state() {
    let mut log = populated();
    log.run(publish_command(1, Some(10), request(1, "a")), &context(1));
    log.run(
        Command::Intervene {
            scope: "s".into(),
            message: "m".into(),
            author: "a".into(),
            target: None,
        },
        &context(50),
    );
    log.run(Command::DeliverDirections { participant_id: ParticipantId(2) }, &context(1));
    let mut again = CoordinationState::new();
    assert!(again.is_continued_by(&log.events));
    again.replay(&log.events);
    for scope in ["s", "t", "unknown"] {
        assert_eq!(again.snapshot(scope), log.state.snapshot(scope));
    }
    assert_eq!(again.attention(), log.state.attention());
    assert_eq!(again.workspaces(), log.state.workspaces());
    assert_eq!(again.last_sequence(), log.next - 1);
    assert!(!again.is_continued_by(&log.events));
    assert_eq!(again.snapshot("unknown").last_sequence, 0);
    assert_eq!(again.snapshot("s").last_sequence, log.next - 1);
}

#[test]
fn evidence_gathers_earlier_artifacts_of_the_same_work() {
    let mut log = populated();
    let file = |uri: &str| ArtifactRef { kind: ArtifactKind::File, uri: uri.into(), digest: None };
    let finding = |uris: &[&str]| Signal::Finding {
        summary: "f".into(),
        artifacts: uris.iter().map(|uri| file(uri)).collect(),
    };
    log.run(publish_command(1, Some(10), finding(&["b", "a"])), &context(1));
    log.run(publish_command(1, None, finding(&["elsewhere"])), &context(1));
    log.run(publish_command(3, None, finding(&["other"])), &context(1));
    log.run(
        publish_command(
            1,
            Some(10),
            Signal::Blocked {
                identity: Some(RequestIdentity {
                    request_id: RequestId(1),
                    request_key: "k".into(),
                    supersedes_request_id: None,
                }),
                summary: "s".into(),
                requested_action: "r".into(),
                evidence: vec![
                    ArtifactRef { kind: ArtifactKind::Url, uri: "0".into(), digest: None },
                    file("a"),
                ],
            },
        ),
        &context(1),
    );
    log.run(publish_command(1, Some(10), finding(&["later"])), &context(1));
    let item = &log.state.attention()[0];
    let uris = item.evidence.iter().map(|artifact| artifact.uri.as_str()).collect::<Vec<_>>();
    assert_eq!(uris, ["a", "b", "0"]);
    assert!(matches!(
        &item.request,
        AttentionRequest::Intervention { blocker, requested_action }
            if blocker == "s" && requested_action == "r"
    ));
}

#[test]
fn workspaces_live_while_anyone_or_any_work_is_there() {
    let mut log = populated();
    let lifecycle = |log: &Log, scope: &str| {
        log.state.workspaces().into_iter().find(|summary| summary.scope == scope).unwrap().lifecycle
    };
    assert_eq!(lifecycle(&log, "s"), WorkspaceLifecycle::Active);
    let done = Signal::Done { summary: "d".into(), evidence: vec![] };
    log.run(publish_command(1, Some(10), done), &context(1));
    assert_eq!(lifecycle(&log, "s"), WorkspaceLifecycle::Active);
    log.run(Command::Leave { participant_id: ParticipantId(1) }, &context(1));
    log.run(Command::Leave { participant_id: ParticipantId(2) }, &context(1));
    log.run(Command::Leave { participant_id: ParticipantId(3) }, &context(1));
    assert_eq!(lifecycle(&log, "s"), WorkspaceLifecycle::Completed);
    assert_eq!(lifecycle(&log, "t"), WorkspaceLifecycle::Idle);
    let scopes =
        log.state.workspaces().into_iter().map(|summary| summary.scope).collect::<Vec<_>>();
    assert_eq!(scopes, ["t", "s"]);
}

#[test]
fn signals_are_checked_by_kind() {
    let identity = |key: &str| {
        Some(RequestIdentity {
            request_id: RequestId(1),
            request_key: key.into(),
            supersedes_request_id: None,
        })
    };
    let receipt =
        ArtifactRef { kind: ArtifactKind::TestReceipt, uri: "t".into(), digest: None };
    let patch = ArtifactRef { kind: ArtifactKind::Patch, uri: "p".into(), digest: None };
    let help = |key: &str, action: &str| Signal::HelpNeeded {
        identity: identity(key),
        summary: "s".into(),
        requested_action: action.into(),
        evidence: vec![],
    };
    assert_eq!(validate_signal(&help("k", "a")), Ok(()));
    assert_eq!(validate_signal(&help(" ", "a")), Err("request key must not be empty".into()));
    assert_eq!(
        validate_signal(&help("k", "")),
        Err("requested action must not be empty".into())
    );
    let decision = |choices: usize, blank: bool, recommendation: Option<&str>, evidence: bool| {
        let mut choices = vec!["c".to_owned(); choices];
        if blank {
            choices.push(" ".into());
        }
        Signal::DecisionNeeded {
            identity: identity("k"),
            summary: "s".into(),
            choices,
            recommendation: recommendation.map(|text| text.into()),
            evidence: if evidence { vec![patch.clone()] } else { vec![] },
        }
    };
    assert_eq!(validate_signal(&decision(9, false, Some("r"), true)), Ok(()));
    assert_eq!(
        validate_signal(&decision(10, true, Some(""), false)),
        Err("a decision request supports at most 9 choices".into())
    );
    assert_eq!(
        validate_signal(&decision(2, true, Some(""), false)),
        Err("choice must not be empty".into())
    );
    assert_eq!(
        validate_signal(&decision(2, false, Some(""), false)),
        Err("recommendation must not be empty".into())
    );
    assert_eq!(
        validate_signal(&decision(0, false, None, false)),
        Err("a decision request needs supporting evidence".into())
    );
    let review = |action: &str, risk: &str, evidence: Vec<ArtifactRef>| Signal::ReviewRequested {
        identity: identity("k"),
        summary: "s".into(),
        requested_action: action.into(),
        known_risk: risk.into(),
        evidence,
    };
    assert_eq!(
        validate_signal(&review("a", "r", vec![receipt.clone(), patch.clone()])),
        Ok(())
    );
    assert_eq!(
        validate_signal(&review("", "", vec![])),
        Err("requested action must not be empty".into())
    );
    assert_eq!(
        validate_signal(&review("a", "", vec![])),
        Err("known risk must not be empty".into())
    );
    assert_eq!(
        validate_signal(&review("a", "r", vec![receipt.clone()])),
        Err("a review request needs a revision or diff artifact".into())
    );
    assert_eq!(
        validate_signal(&review("a", "r", vec![patch.clone()])),
        Err("a review request needs a verification receipt".into())
    );
    assert_eq!(
        validate_signal(&Signal::Done { summary: " ".into(), evidence: vec![] }),
        Err("summary must not be empty".into())
    );
    assert_eq!(validate_text("field", " x"), Ok(()));
    assert_eq!(validate_text("field", "\u{2003}"), Err("field must not be empty".into()));
    assert_eq!(legacy_action(" ", "fallback"), "fallback");
    assert_eq!(legacy_action(" a ", "fallback"), " a ");

    let working = Signal::Working { summary: "w".into() };
    assert!(signal_artifacts(&working).is_none());
    assert!(signal_requires_work(&working));
    assert!(signal_requires_ownership(&working));
    assert!(!signal_requires_work(&help("k", "a")));
    assert!(attention_signal(&working).is_none());
    let (category, request, evidence) =
        attention_signal(&review("", "", vec![receipt.clone()])).map(|(c, r, e)| (c, r, e.clone())).unwrap();
    assert_eq!(attention_rank(category), 3);
    assert_eq!(
        request,
        AttentionRequest::Review {
            summary: "s".into(),
            requested_action:
                "Inspect the referenced change and mark it reviewed or request changes.".into(),
            known_risk: "Not recorded by the legacy request.".into()
        }
    );
    assert_eq!(evidence, vec![receipt.clone()]);
    assert_eq!(artifact_rank(&receipt), 3);
    assert_eq!(artifact_rank(&patch), 1);
}
