use clarity::coordination::{DecisionContext, PendingEvent};
use clarity::identity::new_event_id;
use clarity::protocol::{
    ArtifactKind, ArtifactRef, AttentionCategory, AttentionItem, AttentionRequest, Command,
    CommandResult, Direction, DirectionTarget, EnvironmentManifest, EventEnvelope, EventKind,
    LinearIssue, LinearMetadata, ParticipantId, RepositoryRef, RequestId, RequestIdentity,
    RequestLifecycle, ScopeSnapshot, Signal, WorkId, Workspace, WorkspaceLifecycle,
    WorkspaceSummary,
};
use clarity::runtime::{decode_row, is_log, new_row, seal, Commit, EventRow, Runtime};
use clarity::time::Timestamp;

/// A store in memory: the rows of a log, each with its event.
struct Store {
    rows: Vec<(EventRow, EventKind)>,
}

impl Store {
    fn append(&mut self, pending: Vec<PendingEvent>, now: Timestamp) -> Vec<EventEnvelope> {
        let mut committed = Vec::new();
        for event in pending {
            let event_id = new_event_id();
            let row = new_row(&event, event_id, now);
            let number = self.rows.len() as i64 + 1;
            self.rows.push((
                EventRow {
                    sequence: number,
                    event_id: row.event_id,
                    scope: row.scope,
                    emitted_at: row.emitted_at,
                },
                event.event.clone(),
            ));
            committed.push(seal(event, event_id, number, now).unwrap());
        }
        committed
    }

    fn load(&self) -> Vec<EventEnvelope> {
        self.rows
            .iter()
            .map(|(row, event)| decode_row(row.clone(), Ok(event.clone())).unwrap())
            .collect()
    }
}

/// A runtime with its store and its clock.
struct World {
    runtime: Runtime,
    store: Store,
    now: Timestamp,
}

impl World {
    fn new() -> Self {
        World {
            runtime: Runtime::open(&Vec::new()),
            store: Store { rows: Vec::new() },
            now: Timestamp { seconds: 1_760_000_000, nanos: 0 },
        }
    }

    fn reopened(self) -> Self {
        let log = self.store.load();
        assert!(is_log(&log));
        World { runtime: Runtime::open(&log), store: self.store, now: self.now }
    }

    fn tick(&mut self) {
        self.now.nanos += 1_000_000;
    }

    fn settle(&mut self) {
        if let Some(events) = self.runtime.due(self.now) {
            let committed = self.store.append(events, self.now);
            assert!(self.runtime.is_continued_by(&committed));
            self.runtime.absorb(&committed);
        }
        assert!(self.runtime.due(self.now).is_none());
    }

    fn command(&mut self, command: Command) -> CommandResult {
        self.tick();
        self.settle();
        match self.runtime.command(command, &DecisionContext::at(self.now)) {
            Commit::Append { events, answer } => {
                let committed = self.store.append(events, self.now);
                assert!(self.runtime.is_continued_by(&committed));
                self.runtime.commit(answer, &committed)
            }
            Commit::Answer(result) => result,
        }
    }

    fn snapshot(&mut self, scope: &str) -> ScopeSnapshot {
        self.settle();
        self.runtime.snapshot(scope, self.now)
    }

    fn workspaces(&mut self) -> Vec<WorkspaceSummary> {
        self.settle();
        self.runtime.workspaces(self.now)
    }

    fn attention(&mut self) -> Vec<AttentionItem> {
        self.settle();
        self.runtime.attention(self.now)
    }

    fn directions(&mut self, participant_id: ParticipantId) -> Vec<Direction> {
        self.settle();
        self.runtime.directions(participant_id, self.now)
    }

    fn events(&self, scope: &str, after: u64) -> Vec<EventEnvelope> {
        self.store
            .load()
            .into_iter()
            .filter(|event| event.scope == scope && event.sequence > after)
            .collect()
    }
}

fn define_twice(world: &mut World, workspace: &Workspace) {
    world.command(Command::DefineWorkspace { workspace: workspace.clone() });
    let reconnected = world.command(Command::DefineWorkspace { workspace: workspace.clone() });
    assert!(matches!(
        reconnected,
        CommandResult::Accepted { event_sequences, .. } if event_sequences.is_empty()
    ));
}

fn test_workspace(scope: &str) -> Workspace {
    let identifier = scope.strip_prefix("linear:").unwrap_or(scope);
    Workspace {
        scope: scope.into(),
        title: "Prove independent-agent coordination".into(),
        objective: "Two agents coordinate without manual context routing".into(),
        linear_issue: LinearIssue {
            identifier: identifier.into(),
            url: Some(format!("https://linear.app/tinygarden/issue/{identifier}")),
            metadata: None,
        },
        repository: Some(RepositoryRef {
            repository: "antidmg/clarity".into(),
            revision: Some("main".into()),
        }),
    }
}

fn request_identity(key: &str) -> RequestIdentity {
    RequestIdentity {
        request_id: RequestId::new(),
        request_key: key.into(),
        supersedes_request_id: None,
    }
}

fn publish(
    world: &mut World,
    participant_id: ParticipantId,
    work_id: Option<WorkId>,
    signal: Signal,
) -> CommandResult {
    let result = world.command(Command::PublishSignal { participant_id, work_id, signal });
    assert!(matches!(result, CommandResult::Accepted { .. }));
    result
}

fn join(world: &mut World, scope: &str, name: &str) -> ParticipantId {
    let result = world.command(Command::Join {
        scope: scope.into(),
        name: name.into(),
        manifest: EnvironmentManifest {
            harness: format!("test-{name}"),
            repository: Some("clarity".into()),
            revision: Some("test".into()),
            worktree: None,
            capabilities: vec!["rust".into()],
        },
        lease_seconds: 30,
    });
    let CommandResult::Accepted { participant_id: Some(participant_id), .. } = result else {
        panic!("join should return a participant identity");
    };
    participant_id
}

fn artifact(kind: ArtifactKind, uri: &str, digest: Option<&str>) -> ArtifactRef {
    ArtifactRef { kind, uri: uri.into(), digest: digest.map(|digest| digest.into()) }
}

#[test]
fn independent_participants_prevent_overlap_and_exchange_a_finding() {
    let mut world = World::new();
    let scope = "linear:TG-181";

    let workspace = test_workspace(scope);
    define_twice(&mut world, &workspace);

    let agent_a = join(&mut world, scope, "agent-a");
    let agent_b = join(&mut world, scope, "agent-b");

    let first_claim = world.command(Command::ClaimWork {
        participant_id: agent_a,
        summary: "Inspect overlap semantics".into(),
        resources: vec!["src/coordination.rs".into()],
    });
    assert!(matches!(first_claim, CommandResult::Accepted { .. }));

    world.command(Command::PublishSignal {
        participant_id: agent_a,
        work_id: None,
        signal: Signal::Finding {
            summary: "Directory-prefix overlap is already implemented".into(),
            artifacts: vec![artifact(
                ArtifactKind::File,
                "src/coordination.rs",
                Some("sha256:example"),
            )],
        },
    });

    let overlapping_claim = world.command(Command::ClaimWork {
        participant_id: agent_b,
        summary: "Rewrite the coordination domain".into(),
        resources: vec!["./src/".into()],
    });
    let CommandResult::Conflict { conflicts, .. } = overlapping_claim else {
        panic!("overlapping work should be prevented");
    };
    assert_eq!(conflicts.len(), 1);
    assert_eq!(conflicts[0].owner, agent_a);

    world.command(Command::Intervene {
        scope: scope.into(),
        message: "Agent B should consume Agent A's finding".into(),
        author: "test-human".into(),
        target: None,
    });

    let snapshot = world.snapshot(scope);
    assert_eq!(snapshot.active_work.len(), 1);
    assert_eq!(snapshot.signals.len(), 1);
    let Signal::Finding { summary, artifacts } = &snapshot.signals[0].signal else {
        panic!("the observed signal should remain a typed finding");
    };
    assert_eq!(snapshot.signals[0].participant_id, agent_a);
    assert_eq!(summary, "Directory-prefix overlap is already implemented");
    assert_eq!(artifacts[0].kind, ArtifactKind::File);
    assert_eq!(artifacts[0].uri, "src/coordination.rs");
    assert_eq!(snapshot.metrics.prevented_overlaps, 1);
    assert_eq!(snapshot.metrics.human_interventions, 1);
    assert_eq!(snapshot.workspace, Some(workspace.clone()));

    let workspaces = world.workspaces();
    assert_eq!(workspaces.len(), 1);
    assert_eq!(workspaces[0].scope, scope);
    assert_eq!(workspaces[0].title.as_deref(), Some(workspace.title.as_str()));
    assert_eq!(workspaces[0].lifecycle, WorkspaceLifecycle::Active);
    assert_eq!(workspaces[0].active_participants, 2);

    let events = world.events(scope, 0);
    assert!(events.iter().any(|event| matches!(event.event, EventKind::OverlapDetected { .. })));
    assert!(events.iter().any(|event| matches!(event.event, EventKind::SignalPublished { .. })));

    let mut replayed = world.reopened();
    let snapshot = replayed.snapshot(scope);
    assert_eq!(snapshot.active_work.len(), 1);
    assert_eq!(snapshot.signals.len(), 1);
    assert_eq!(snapshot.metrics.prevented_overlaps, 1);
    assert_eq!(snapshot.metrics.human_interventions, 1);
    assert_eq!(replayed.workspaces()[0].scope, scope);
}

#[test]
fn linear_metadata_refresh_is_idempotent_replayable_and_independent_of_work_history() {
    let mut world = World::new();
    let scope = "linear:TG-REFRESH";
    let mut workspace = test_workspace(scope);
    workspace.linear_issue.metadata =
        Some(LinearMetadata { status: "Todo".into(), updated_at: world.now });
    define_twice(&mut world, &workspace);

    let mut refreshed = workspace.clone();
    refreshed.title = "Renamed in Linear".into();
    refreshed.objective = "Continue reopened work without deleting history".into();
    refreshed.linear_issue.url = Some("https://linear.app/issue/TG-REFRESH-renamed".into());
    refreshed.linear_issue.metadata = Some(LinearMetadata {
        status: "In Progress".into(),
        updated_at: Timestamp { seconds: world.now.seconds + 1, nanos: world.now.nanos },
    });
    let changed = world.command(Command::RefreshWorkspaceMetadata { workspace: refreshed.clone() });
    assert!(matches!(
        changed,
        CommandResult::Accepted { ref event_sequences, .. } if event_sequences.len() == 1
    ));
    let unchanged =
        world.command(Command::RefreshWorkspaceMetadata { workspace: refreshed.clone() });
    assert!(matches!(
        unchanged,
        CommandResult::Accepted { ref event_sequences, .. } if event_sequences.is_empty()
    ));
    assert_eq!(world.snapshot(scope).workspace.as_ref(), Some(&refreshed));
    assert!(world
        .events(scope, 0)
        .iter()
        .any(|event| matches!(event.event, EventKind::WorkspaceMetadataUpdated { .. })));

    let participant = join(&mut world, scope, "reopened-agent");
    let claim = world.command(Command::ClaimWork {
        participant_id: participant,
        summary: "Complete one unit of reopened work".into(),
        resources: vec!["src/reopened.rs".into()],
    });
    let CommandResult::Accepted { work_id: Some(work_id), .. } = claim else {
        panic!("claim should return work identity");
    };
    publish(
        &mut world,
        participant,
        Some(work_id),
        Signal::Done { summary: "One work claim completed".into(), evidence: vec![] },
    );
    world.command(Command::Leave { participant_id: participant });
    assert_eq!(world.workspaces()[0].lifecycle, WorkspaceLifecycle::Completed);
    assert!(world
        .snapshot(scope)
        .signals
        .iter()
        .any(|published| matches!(published.signal, Signal::Done { .. })));

    let mut replayed = world.reopened();
    let replayed_snapshot = replayed.snapshot(scope);
    assert_eq!(replayed_snapshot.workspace.as_ref(), Some(&refreshed));
    assert_eq!(replayed.workspaces()[0].lifecycle, WorkspaceLifecycle::Completed);
}

#[test]
fn attention_is_typed_ordered_traceable_and_resolved_explicitly() {
    let mut world = World::new();
    let cases = [
        ("linear:TG-DECISION", "decision-agent"),
        ("linear:TG-BLOCKED", "blocked-agent"),
        ("linear:TG-HELP", "help-agent"),
        ("linear:TG-REVIEW", "review-agent"),
        ("linear:TG-QUIET", "quiet-agent"),
    ];
    let mut work = Vec::new();
    for (scope, name) in cases {
        define_twice(&mut world, &test_workspace(scope));
        let participant = join(&mut world, scope, name);
        let result = world.command(Command::ClaimWork {
            participant_id: participant,
            summary: format!("Work in {scope}"),
            resources: vec![format!("{name}.rs")],
        });
        let CommandResult::Accepted { work_id: Some(work_id), .. } = result else {
            panic!("claim should return a work identity");
        };
        work.push((scope, participant, work_id));
    }

    let [
        (decision_scope, decision_agent, decision_work),
        (_, blocked_agent, blocked_work),
        (_, help_agent, help_work),
        (_, review_agent, review_work),
        (_, quiet_agent, quiet_work),
    ] = work.as_slice()
    else {
        unreachable!();
    };
    publish(
        &mut world,
        *decision_agent,
        Some(*decision_work),
        Signal::Finding {
            summary: "The API contract is the relevant finding".into(),
            artifacts: vec![artifact(
                ArtifactKind::File,
                "src/protocol.rs",
                Some("sha256:evidence"),
            )],
        },
    );
    publish(
        &mut world,
        *review_agent,
        Some(*review_work),
        Signal::ReviewRequested {
            identity: Some(request_identity("projection-review")),
            summary: "Initial projection is ready for review".into(),
            requested_action: "Inspect the initial projection".into(),
            known_risk: "Projection ordering may change".into(),
            evidence: vec![
                artifact(ArtifactKind::Revision, "git:old-projection", None),
                artifact(ArtifactKind::TestReceipt, "cargo nextest run old-attention", None),
            ],
        },
    );
    publish(
        &mut world,
        *review_agent,
        Some(*review_work),
        Signal::ReviewRequested {
            identity: Some(request_identity("projection-review")),
            summary: "Projection is ready for review".into(),
            requested_action: "Inspect the new projection".into(),
            known_risk: "None identified".into(),
            evidence: vec![
                artifact(ArtifactKind::Revision, "git:new-projection", None),
                artifact(ArtifactKind::TestReceipt, "cargo nextest run attention", None),
            ],
        },
    );
    let first_help_identity = request_identity("help-contract-v1");
    let first_help_id = first_help_identity.request_id;
    let second_help_identity = RequestIdentity {
        request_id: RequestId::new(),
        request_key: "blocked-contract".into(),
        supersedes_request_id: Some(first_help_identity.request_id),
    };
    publish(
        &mut world,
        *help_agent,
        Some(*help_work),
        Signal::HelpNeeded {
            identity: Some(first_help_identity),
            summary: "First help request".into(),
            requested_action: "Provide the first answer".into(),
            evidence: vec![],
        },
    );
    publish(
        &mut world,
        *help_agent,
        Some(*help_work),
        Signal::HelpNeeded {
            identity: Some(second_help_identity),
            summary: "Second help request".into(),
            requested_action: "Provide the second answer".into(),
            evidence: vec![],
        },
    );
    publish(
        &mut world,
        *blocked_agent,
        Some(*blocked_work),
        Signal::Blocked {
            identity: Some(request_identity("blocked-contract")),
            summary: "Cannot continue without an intervention".into(),
            requested_action: "Provide an intervention".into(),
            evidence: vec![],
        },
    );
    publish(
        &mut world,
        *decision_agent,
        Some(*decision_work),
        Signal::DecisionNeeded {
            identity: Some(request_identity("target-contract")),
            summary: "Choose the stable target contract".into(),
            choices: vec!["Per-recipient receipt".into(), "Shared receipt".into()],
            recommendation: Some("Per-recipient receipt".into()),
            evidence: vec![artifact(
                ArtifactKind::File,
                "src/protocol.rs",
                Some("sha256:evidence"),
            )],
        },
    );
    publish(
        &mut world,
        *quiet_agent,
        Some(*quiet_work),
        Signal::Working { summary: "Normal work is progressing".into() },
    );
    publish(
        &mut world,
        *quiet_agent,
        Some(*quiet_work),
        Signal::Checkpoint {
            summary: "Routine checkpoint remains quiet".into(),
            artifacts: vec![],
        },
    );

    let attention = world.attention();
    assert_eq!(
        attention.iter().map(|item| item.category).collect::<Vec<_>>(),
        vec![
            AttentionCategory::Decision,
            AttentionCategory::Blocked,
            AttentionCategory::Help,
            AttentionCategory::ReadyForReview,
        ]
    );
    assert!(matches!(
        &attention[2].request,
        AttentionRequest::Intervention { blocker, .. } if blocker == "Second help request"
    ));
    assert!(!attention.iter().any(|item| item.request_id == first_help_id));
    assert!(matches!(
        &attention[3].request,
        AttentionRequest::Review { summary, .. } if summary == "Projection is ready for review"
    ));
    assert_eq!(attention[3].evidence.len(), 2);
    let review = attention[3].clone();
    let decision = &attention[0];
    assert_eq!(decision.source_scope, *decision_scope);
    assert_eq!(decision.work_id, Some(*decision_work));
    assert_eq!(decision.participant_id, *decision_agent);
    assert_eq!(decision.lifecycle, RequestLifecycle::Open);
    assert_eq!(decision.target.scope, decision.source_scope);
    assert_eq!(decision.target.event_id, decision.source_event_id);
    assert!(matches!(
        &decision.request,
        AttentionRequest::Decision { question, choices, .. }
            if question == "Choose the stable target contract" && choices.len() == 2
    ));
    assert_eq!(decision.evidence.len(), 1);
    assert_eq!(decision.evidence[0].uri, "src/protocol.rs");
    assert!(world.snapshot("linear:TG-QUIET").attention.is_empty());

    world.command(Command::Intervene {
        scope: review.source_scope,
        message: "Reviewed; the explicit projection is correct".into(),
        author: "inspector@example.com".into(),
        target: Some(DirectionTarget {
            request_id: Some(review.request_id),
            source_event_id: review.source_event_id,
            participant_id: review.participant_id,
            work_id: review.work_id,
        }),
    });
    assert!(!world
        .attention()
        .iter()
        .any(|item| item.source_event_id == review.source_event_id));

    publish(
        &mut world,
        *decision_agent,
        Some(*decision_work),
        Signal::Done {
            summary: "Decision applied and work completed".into(),
            evidence: vec![artifact(ArtifactKind::Revision, "git:abc123", None)],
        },
    );
    let resolved = world.attention();
    assert!(resolved.iter().any(|item| {
        item.category == AttentionCategory::Decision && item.work_id == Some(*decision_work)
    }));
    world.command(Command::ResolveAttention {
        participant_id: *decision_agent,
        request_id: decision.request_id,
        summary: "Applied the selected target contract".into(),
    });
    assert!(!world
        .attention()
        .iter()
        .any(|item| item.request_id == decision.request_id));
}

#[test]
fn targeted_direction_is_delivered_consumed_and_resolved_by_follow_up() {
    let mut world = World::new();
    let scope = "linear:TG-191";
    define_twice(&mut world, &test_workspace(scope));
    let target = join(&mut world, scope, "target-agent");
    let unrelated = join(&mut world, scope, "unrelated-agent");
    let claim = world.command(Command::ClaimWork {
        participant_id: target,
        summary: "Implement exact direction routing".into(),
        resources: vec!["src/protocol.rs".into()],
    });
    let CommandResult::Accepted { work_id: Some(work_id), .. } = claim else {
        panic!("claim should return work identity");
    };
    let direction_identity = request_identity("direction-shape");
    let published_request = publish(
        &mut world,
        target,
        Some(work_id),
        Signal::DecisionNeeded {
            identity: Some(direction_identity.clone()),
            summary: "Choose the durable direction shape".into(),
            choices: vec!["Per-recipient receipt".into()],
            recommendation: None,
            evidence: vec![artifact(ArtifactKind::File, "src/protocol.rs", None)],
        },
    );
    assert!(matches!(
        published_request,
        CommandResult::Accepted { request_id: Some(request_id), .. }
            if request_id == direction_identity.request_id
    ));
    publish(
        &mut world,
        target,
        Some(work_id),
        Signal::HelpNeeded {
            identity: Some(request_identity("independent-help")),
            summary: "Confirm the rollout window".into(),
            requested_action: "Provide a rollout window".into(),
            evidence: vec![],
        },
    );
    let requests = world.attention();
    assert_eq!(requests.len(), 2);
    let request = requests
        .iter()
        .find(|item| item.category == AttentionCategory::Decision)
        .unwrap()
        .clone();
    let independent = requests
        .iter()
        .find(|item| item.category == AttentionCategory::Help)
        .unwrap()
        .clone();

    world.command(Command::Intervene {
        scope: scope.into(),
        message: "Use an explicit per-recipient delivery receipt".into(),
        author: "inspector@example.com".into(),
        target: Some(DirectionTarget {
            request_id: Some(request.request_id),
            source_event_id: request.source_event_id,
            participant_id: target,
            work_id: Some(work_id),
        }),
    });
    for participant_id in [target, unrelated] {
        world.command(Command::DeliverDirections { participant_id });
    }
    let delivered = world.directions(target);
    assert_eq!(delivered.len(), 1);
    assert_eq!(delivered[0].author, "inspector@example.com");
    assert_eq!(
        delivered[0].target.as_ref().unwrap().source_event_id,
        request.source_event_id
    );
    assert!(world.directions(unrelated).is_empty());

    let direction_id = delivered[0].id;
    world.command(Command::ConsumeDirection { participant_id: target, direction_id });
    assert!(world.directions(target).is_empty());

    world.command(Command::Intervene {
        scope: scope.into(),
        message: "Workspace-wide release window changed".into(),
        author: "release-manager@example.com".into(),
        target: None,
    });
    for participant_id in [target, unrelated] {
        world.command(Command::DeliverDirections { participant_id });
        let broadcasts = world.directions(participant_id);
        assert_eq!(broadcasts.len(), 1);
        assert!(broadcasts[0].target.is_none());
        world.command(Command::ConsumeDirection {
            participant_id,
            direction_id: broadcasts[0].id,
        });
    }
    publish(
        &mut world,
        target,
        Some(work_id),
        Signal::Checkpoint {
            summary: "Direction changed the implementation to per-recipient receipts".into(),
            artifacts: vec![artifact(
                ArtifactKind::TestReceipt,
                "targeted-direction-integration",
                None,
            )],
        },
    );
    assert!(!world
        .attention()
        .iter()
        .any(|item| item.source_event_id == request.source_event_id));
    assert!(world
        .attention()
        .iter()
        .any(|item| item.request_id == independent.request_id));
    world.command(Command::ResolveAttention {
        participant_id: target,
        request_id: request.request_id,
        summary: "Applied and verified the selected direction".into(),
    });
    let stale_response = world.command(Command::Intervene {
        scope: scope.into(),
        message: "This response arrived after resolution".into(),
        author: "inspector@example.com".into(),
        target: Some(DirectionTarget {
            request_id: Some(request.request_id),
            source_event_id: request.source_event_id,
            participant_id: target,
            work_id: Some(work_id),
        }),
    });
    assert!(matches!(stale_response, CommandResult::Rejected { .. }));
    publish(
        &mut world,
        target,
        Some(work_id),
        Signal::Done {
            summary: "Targeted direction was applied".into(),
            evidence: vec![artifact(
                ArtifactKind::TestReceipt,
                "targeted-direction-integration",
                None,
            )],
        },
    );
    assert!(world
        .attention()
        .iter()
        .any(|item| item.request_id == independent.request_id));
    world.command(Command::ResolveAttention {
        participant_id: target,
        request_id: independent.request_id,
        summary: "Rollout window is no longer needed".into(),
    });
    assert!(!world
        .attention()
        .iter()
        .any(|item| item.request_id == independent.request_id));

    let chain = world.events(scope, 0);
    let kinds = chain
        .iter()
        .filter_map(|event| match &event.event {
            EventKind::SignalPublished { published }
                if matches!(published.signal, Signal::DecisionNeeded { .. }) =>
            {
                Some("request")
            }
            EventKind::DirectionIssued { direction } if direction.id == direction_id => {
                Some("decision")
            }
            EventKind::DirectionDelivered { direction_id: id, .. } if *id == direction_id => {
                Some("delivered")
            }
            EventKind::DirectionConsumed { direction_id: id, .. } if *id == direction_id => {
                Some("consumed")
            }
            EventKind::SignalPublished { published }
                if matches!(published.signal, Signal::Checkpoint { .. }) =>
            {
                Some("checkpoint")
            }
            EventKind::SignalPublished { published }
                if matches!(published.signal, Signal::Done { .. }) =>
            {
                Some("done")
            }
            EventKind::AttentionResolved { request_id, .. }
                if *request_id == request.request_id =>
            {
                Some("request-resolved")
            }
            EventKind::AttentionResolved { request_id, .. }
                if *request_id == independent.request_id =>
            {
                Some("resolved")
            }
            _ => None,
        })
        .collect::<Vec<_>>();
    assert_eq!(
        kinds,
        [
            "request",
            "decision",
            "delivered",
            "consumed",
            "checkpoint",
            "request-resolved",
            "done",
            "resolved"
        ]
    );

    let replayed = world.reopened();
    let replayed_events = replayed.events(scope, 0);
    let direction = replayed_events
        .iter()
        .find_map(|event| match &event.event {
            EventKind::DirectionIssued { direction } if direction.id == direction_id => {
                Some(direction)
            }
            _ => None,
        })
        .unwrap();
    assert_eq!(direction.id, direction_id);
    assert_eq!(
        direction.target.as_ref().unwrap().request_id,
        Some(request.request_id)
    );
    assert!(replayed_events.iter().any(|event| matches!(
        event.event,
        EventKind::DirectionConsumed { direction_id: id, .. } if id == direction_id
    )));
    assert!(replayed_events.iter().any(|event| matches!(
        event.event,
        EventKind::AttentionResolved { request_id, .. }
            if request_id == independent.request_id
    )));
    assert!(replayed_events.iter().any(|event| matches!(
        event.event,
        EventKind::AttentionResolved { request_id, .. }
            if request_id == request.request_id
    )));
}

#[test]
fn presence_renewals_do_not_reorder_workspaces() {
    let mut world = World::new();
    let older_scope = "linear:TG-188";
    let newer_scope = "linear:TG-191";
    define_twice(&mut world, &test_workspace(older_scope));
    let older = join(&mut world, older_scope, "older-agent");
    define_twice(&mut world, &test_workspace(newer_scope));
    let newer = join(&mut world, newer_scope, "newer-agent");
    assert_eq!(world.workspaces()[0].scope, newer_scope);

    for participant_id in [older, newer, older] {
        world.command(Command::RenewPresence { participant_id, lease_seconds: 60 });
    }
    assert_eq!(world.workspaces()[0].scope, newer_scope);

    publish(
        &mut world,
        older,
        None,
        Signal::Finding {
            summary: "A meaningful update may reorder the workspace".into(),
            artifacts: vec![],
        },
    );
    assert_eq!(world.workspaces()[0].scope, older_scope);
}

#[test]
fn concurrent_overlapping_claims_have_exactly_one_winner() {
    let mut world = World::new();
    let scope = "linear:TG-181:concurrency";
    let agent_a = join(&mut world, scope, "agent-a");
    let agent_b = join(&mut world, scope, "agent-b");

    let left = world.command(Command::ClaimWork {
        participant_id: agent_a,
        summary: "Edit one file".into(),
        resources: vec!["src/../src/coordination.rs".into()],
    });
    let right = world.command(Command::ClaimWork {
        participant_id: agent_b,
        summary: "Edit the containing module".into(),
        resources: vec!["src".into()],
    });

    let results = [left, right];
    assert_eq!(
        results
            .iter()
            .filter(|result| matches!(result, CommandResult::Accepted { .. }))
            .count(),
        1
    );
    assert_eq!(
        results
            .iter()
            .filter(|result| matches!(result, CommandResult::Conflict { .. }))
            .count(),
        1
    );
    let snapshot = world.snapshot(scope);
    assert_eq!(snapshot.active_work.len(), 1);
    assert_eq!(snapshot.metrics.prevented_overlaps, 1);
}

#[test]
fn leases_run_out_and_release_all_work() {
    let mut world = World::new();
    let scope = "linear:TG-200";
    let stays = join(&mut world, scope, "stays");
    let goes = join(&mut world, scope, "goes");
    world.command(Command::ClaimWork {
        participant_id: goes,
        summary: "Work that is left behind".into(),
        resources: vec!["src/left".into(), "docs".into()],
    });
    world.command(Command::ClaimWork {
        participant_id: stays,
        summary: "Work that goes on".into(),
        resources: vec!["src/kept".into()],
    });
    world.now.seconds += 29;
    world.command(Command::RenewPresence { participant_id: stays, lease_seconds: 300 });
    world.now.seconds += 2;
    let snapshot = world.snapshot(scope);
    assert_eq!(snapshot.participants.len(), 1);
    assert_eq!(snapshot.participants[0].id, stays);
    assert_eq!(snapshot.active_work.len(), 1);
    assert_eq!(snapshot.active_work[0].owner, stays);
    let kinds = world
        .events(scope, 0)
        .iter()
        .rev()
        .take(2)
        .map(|event| matches!(event.event, EventKind::ParticipantLeft { .. }))
        .collect::<Vec<_>>();
    assert_eq!(kinds, [true, false]);
    let rejected = world.command(Command::RenewPresence { participant_id: goes, lease_seconds: 30 });
    assert_eq!(
        rejected,
        CommandResult::Rejected { reason: "participant is absent or its lease expired".into() }
    );
}
