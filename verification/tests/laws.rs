use clarity::bootstrap::{head_arguments, origin_arguments, toplevel_arguments};
use clarity::bootstrap::{DaemonProbe, DaemonRecord, DAEMON_PROTOCOL_VERSION};
use clarity::cli::daemon::{served_identity, Address, DaemonContext, DaemonStep};
use clarity::coordination::{CoordinationState, Decision, DecisionContext};
use clarity::paths::PathStyle;
use clarity::protocol::{
    Command, DirectionId, DirectionTarget, EnvironmentManifest, EventEnvelope, EventKind,
    ParticipantId, RequestId, RequestIdentity, Signal, WorkId,
};
use clarity::resources::{normalize_resources, path_overlaps, resources_overlap};
use clarity::runtime::{page, Commit, Runtime, PAGE_LENGTH};
use clarity::time::Timestamp;

struct Chance(u64);

impl Chance {
    fn below(&mut self, n: u64) -> u64 {
        self.0 = self.0.wrapping_mul(6364136223846793005).wrapping_add(1442695040888963407);
        (self.0 >> 33) % n
    }

    fn pick<T: Clone>(&mut self, items: &[T]) -> Option<T> {
        if items.is_empty() {
            None
        } else {
            let at = self.below(items.len() as u64) as usize;
            Some(items[at].clone())
        }
    }
}

const SCOPES: [&str; 2] = ["linear:A-1", "linear:B-2"];
const PATHS: [&str; 8] =
    ["src", "src/a", "src/a/b", "./src/", "docs", "docs/../src/c", "srcs", "tests/x"];
const KEYS: [&str; 3] = ["alpha", "beta", "gamma"];

struct Simulation {
    state: CoordinationState,
    log: Vec<EventEnvelope>,
    now: Timestamp,
    next: u128,
    participants: Vec<ParticipantId>,
    work: Vec<WorkId>,
    requests: Vec<RequestId>,
    directions: Vec<DirectionId>,
}

impl Simulation {
    fn new() -> Self {
        Simulation {
            state: CoordinationState::default(),
            log: Vec::new(),
            now: Timestamp { seconds: 1_760_000_000, nanos: 0 },
            next: 1,
            participants: Vec::new(),
            work: Vec::new(),
            requests: Vec::new(),
            directions: Vec::new(),
        }
    }

    fn put(&mut self, scope: String, event: EventKind) {
        let envelope = EventEnvelope {
            sequence: self.log.len() as u64 + 1,
            event_id: 10_000 + self.log.len() as u128,
            scope,
            emitted_at: self.now,
            event,
        };
        assert!(self.state.can_apply(&envelope));
        let before = SCOPES.map(|scope| self.state.snapshot(scope));
        let mut attention = self.state.attention();
        let mut pending = self.pending();
        self.state.apply(&envelope);
        match &envelope.event {
            EventKind::AttentionResolved { request_id, .. } => {
                attention.retain(|item| item.request_id != *request_id);
                assert_eq!(self.state.attention(), attention);
            }
            EventKind::DirectionConsumed { direction_id, participant_id, .. } => {
                for (participant, ids) in &mut pending {
                    ids.retain(|id| participant != participant_id || id != direction_id);
                }
                assert_eq!(self.pending(), pending);
                assert_eq!(self.state.attention(), attention);
            }
            EventKind::SignalPublished { published }
                if published.signal.request_identity().is_some() => {}
            EventKind::DirectionIssued { direction } if direction.target.is_some() => {}
            _ => assert_eq!(self.state.attention(), attention),
        }
        for (scope, before) in SCOPES.iter().zip(before) {
            let after = self.state.snapshot(scope);
            if envelope.scope == *scope {
                assert_eq!(after.last_sequence, envelope.sequence);
                let mut signals = before.signals;
                if let EventKind::SignalPublished { published } = &envelope.event {
                    signals.push(published.clone());
                }
                assert_eq!(after.signals, signals);
            } else {
                assert_eq!(after, before);
            }
        }
        self.log.push(envelope);
    }

    fn pending(&self) -> Vec<(ParticipantId, Vec<DirectionId>)> {
        self.participants
            .iter()
            .map(|participant| {
                let directions = self.state.directions_for(*participant);
                (*participant, directions.iter().map(|direction| direction.id).collect())
            })
            .collect()
    }

    fn expire(&mut self) {
        for event in self.state.expire(self.now) {
            self.put(event.scope, event.event);
        }
        assert!(self.state.expire(self.now).is_empty());
    }

    fn run(&mut self, command: Command) {
        self.next += 1;
        let context = DecisionContext {
            now: self.now,
            participant_id: ParticipantId(self.next),
            work_id: WorkId(self.next),
            direction_id: DirectionId(self.next),
            paths: PathStyle::Slash,
        };
        match self.state.decide(command, &context) {
            Decision::Accepted { events, .. } | Decision::Conflict { events, .. } => {
                for event in events {
                    match &event.event {
                        EventKind::ParticipantJoined { participant } => {
                            self.participants.push(participant.id);
                        }
                        EventKind::WorkClaimed { work } => self.work.push(work.id),
                        EventKind::SignalPublished { published } => {
                            if let Some(identity) = published.signal.request_identity() {
                                self.requests.push(identity.request_id);
                            }
                        }
                        EventKind::DirectionIssued { direction } => {
                            self.directions.push(direction.id);
                        }
                        _ => {}
                    }
                    self.put(event.scope, event.event);
                }
            }
            Decision::Rejected(reason) => assert!(!reason.is_empty()),
        }
    }

    fn command(&mut self, chance: &mut Chance) -> Option<Command> {
        let present: Vec<ParticipantId> = SCOPES
            .iter()
            .flat_map(|scope| self.state.snapshot(scope).participants)
            .map(|participant| participant.id)
            .collect();
        let participant_id = if present.is_empty() || chance.below(8) == 0 {
            chance.pick(&self.participants)
        } else {
            chance.pick(&present)
        };
        let work_id = if chance.below(2) == 0 { chance.pick(&self.work) } else { None };
        Some(match chance.below(10) {
            0 => Command::Join {
                scope: chance.pick(&SCOPES)?.to_owned(),
                name: "n".into(),
                manifest: EnvironmentManifest {
                    harness: "h".into(),
                    repository: None,
                    revision: None,
                    worktree: None,
                    capabilities: vec![],
                },
                lease_seconds: 5 + chance.below(60),
            },
            1 => Command::RenewPresence {
                participant_id: participant_id?,
                lease_seconds: 5 + chance.below(60),
            },
            2 | 3 => Command::ClaimWork {
                participant_id: participant_id?,
                summary: "w".into(),
                resources: vec![chance.pick(&PATHS)?.to_owned(), chance.pick(&PATHS)?.to_owned()],
            },
            4 => Command::PublishSignal {
                participant_id: participant_id?,
                work_id,
                signal: Signal::HelpNeeded {
                    identity: Some(RequestIdentity {
                        request_id: RequestId(self.next),
                        request_key: chance.pick(&KEYS)?.to_owned(),
                        supersedes_request_id: if chance.below(4) == 0 {
                            chance.pick(&self.requests)
                        } else {
                            None
                        },
                    }),
                    summary: "s".into(),
                    requested_action: "r".into(),
                    evidence: vec![],
                },
            },
            5 => Command::PublishSignal {
                participant_id: participant_id?,
                work_id,
                signal: Signal::Done { summary: "d".into(), evidence: vec![] },
            },
            6 => Command::ResolveAttention {
                participant_id: participant_id?,
                request_id: chance.pick(&self.requests)?,
                summary: "s".into(),
            },
            7 => {
                let item = chance.pick(&self.state.attention());
                let scope = match &item {
                    Some(item) => item.source_scope.clone(),
                    None => chance.pick(&SCOPES)?.to_owned(),
                };
                Command::Intervene {
                    scope,
                    message: "m".into(),
                    author: "a".into(),
                    target: item.map(|item| DirectionTarget {
                        request_id: Some(item.request_id),
                        source_event_id: item.source_event_id,
                        participant_id: item.participant_id,
                        work_id: item.work_id,
                    }),
                }
            }
            8 => Command::DeliverDirections { participant_id: participant_id? },
            _ => {
                if chance.below(3) == 0 {
                    Command::Leave { participant_id: participant_id? }
                } else {
                    Command::ConsumeDirection {
                        participant_id: participant_id?,
                        direction_id: chance.pick(&self.directions)?,
                    }
                }
            }
        })
    }

    fn check(&self) {
        let mut open = Vec::new();
        for scope in SCOPES {
            let snapshot = self.state.snapshot(scope);
            for (i, work) in snapshot.active_work.iter().enumerate() {
                assert!(snapshot.participants.iter().any(|present| present.id == work.owner));
                for other in &snapshot.active_work[..i] {
                    assert!(!resources_overlap(&work.resources, &other.resources));
                }
            }
            for item in &snapshot.attention {
                assert!(!open.contains(&item.request_id));
                open.push(item.request_id);
                let same_context = snapshot.attention.iter().filter(|other| {
                    other.participant_id == item.participant_id
                        && other.work_id == item.work_id
                        && other.request_key == item.request_key
                });
                assert_eq!(same_context.count(), 1);
            }
        }
        let all = self.state.attention();
        assert_eq!(all.len(), open.len());
        assert!(all.windows(2).all(|pair| pair[0].created_at <= pair[1].created_at));
        for participant in &self.participants {
            for direction in self.state.directions_for(*participant) {
                for (i, delivery) in direction.deliveries.iter().enumerate() {
                    assert!(direction.deliveries[..i]
                        .iter()
                        .all(|earlier| earlier.participant_id != delivery.participant_id));
                }
            }
        }
    }
}

#[test]
fn every_state_is_sound() {
    for seed in 0..6 {
        let mut chance = Chance(seed);
        let mut simulation = Simulation::new();
        for _ in 0..250 {
            simulation.now.seconds += chance.below(4) as i64;
            simulation.expire();
            if let Some(command) = simulation.command(&mut chance) {
                simulation.run(command);
            }
            simulation.check();
        }
        assert!(simulation.log.len() > 100);
        let mut again = CoordinationState::new();
        again.replay(&simulation.log);
        for scope in SCOPES {
            assert_eq!(again.snapshot(scope), simulation.state.snapshot(scope));
        }
        let (first, rest) = simulation.log.split_at(simulation.log.len() / 3);
        let mut runtime = Runtime::open(&first.to_vec());
        runtime.absorb(&rest.to_vec());
        let restarted = Runtime::open(&simulation.log);
        let now = simulation.now;
        for scope in SCOPES {
            assert_eq!(runtime.snapshot(scope, now), restarted.snapshot(scope, now));
        }
        assert_eq!(runtime.attention(now), restarted.attention(now));
        assert_eq!(runtime.workspaces(now), restarted.workspaces(now));
    }
}

#[test]
fn items_are_answered_once() {
    let mut answered = 0;
    for seed in 0..4 {
        let mut chance = Chance(100 + seed);
        let mut simulation = Simulation::new();
        for _ in 0..150 {
            simulation.now.seconds += chance.below(3) as i64;
            simulation.expire();
            if let Some(command) = simulation.command(&mut chance) {
                simulation.run(command);
            }
            if chance.below(10) != 0 {
                continue;
            }
            let items = simulation.state.attention();
            let Some(item) = chance.pick(&items) else {
                continue;
            };
            let context = DecisionContext {
                paths: PathStyle::Slash,
                ..DecisionContext::at(simulation.now)
            };
            let answer = |state: &CoordinationState| {
                state.intervene(
                    item.source_scope.clone(),
                    "go on".into(),
                    "human".into(),
                    Some(DirectionTarget {
                        source_event_id: item.source_event_id,
                        participant_id: item.participant_id,
                        work_id: item.work_id,
                        request_id: Some(item.request_id),
                    }),
                    &context,
                )
            };
            let Decision::Accepted { events, participant_id: None, work_id: None } =
                answer(&simulation.state)
            else {
                panic!("an item can be answered");
            };
            assert_eq!(events.len(), 1);
            for event in events {
                assert_eq!(event.scope, item.source_scope);
                simulation.put(event.scope, event.event);
            }
            let mut left = items;
            left.retain(|other| other.request_id != item.request_id);
            assert_eq!(simulation.state.attention(), left);
            assert!(matches!(
                answer(&simulation.state),
                Decision::Rejected(reason)
                    if reason
                        == "direction target does not identify a source request in this workspace"
            ));
            answered += 1;
        }
    }
    assert!(answered > 5);
}

#[test]
fn pages_lead_through_the_whole_log() {
    let at = Timestamp { seconds: 1_760_000_000, nanos: 0 };
    let log: Vec<EventEnvelope> = (1..=4200u64)
        .map(|sequence| EventEnvelope {
            sequence,
            event_id: u128::from(sequence),
            scope: if sequence % 2 == 0 { "even".into() } else { "odd".into() },
            emitted_at: at,
            event: EventKind::PresenceRenewed {
                participant_id: ParticipantId(1),
                expires_at: at,
            },
        })
        .collect();
    let mut read = Vec::new();
    let mut after = 0;
    let mut lengths = Vec::new();
    loop {
        let found = page(log.clone(), "even", after);
        assert_eq!(page(found.clone(), "even", after), found);
        lengths.push(found.len());
        let Some(last) = found.last() else { break };
        after = last.sequence;
        read.extend(found);
    }
    assert_eq!(lengths, [PAGE_LENGTH, PAGE_LENGTH, 100, 0]);
    let expected: Vec<u64> = (1..=2100).map(|n| 2 * n).collect();
    assert_eq!(read.iter().map(|event| event.sequence).collect::<Vec<_>>(), expected);
    assert!(page(log.clone(), "neither", 0).is_empty());
    assert_eq!(page(log[..10].to_vec(), "odd", 3).len(), 3);
}

#[test]
fn what_is_due_is_due_once() {
    let now = Timestamp { seconds: 1_760_000_000, nanos: 0 };
    let mut runtime = Runtime::open(&Vec::new());
    let join = Command::Join {
        scope: "s".into(),
        name: "n".into(),
        manifest: EnvironmentManifest {
            harness: "h".into(),
            repository: None,
            revision: None,
            worktree: None,
            capabilities: vec![],
        },
        lease_seconds: 5,
    };
    let Commit::Append { events, answer } = runtime.command(join, &DecisionContext::at(now)) else {
        panic!("joining goes into the log");
    };
    let seal = |events: Vec<clarity::coordination::PendingEvent>, first: i64| {
        events
            .into_iter()
            .enumerate()
            .map(|(i, event)| clarity::runtime::seal(event, i as u128, first + i as i64, now).unwrap())
            .collect::<Vec<_>>()
    };
    runtime.commit(answer, &seal(events, 1));
    let later = Timestamp { seconds: now.seconds + 5, nanos: 0 };
    assert!(runtime.due(now).is_none());
    let due = runtime.due(later).unwrap();
    assert_eq!(due.len(), 1);
    runtime.absorb(&seal(due, 2));
    assert!(runtime.due(later).is_none());
    assert!(runtime.snapshot("s", later).participants.is_empty());
}

#[test]
fn canonical_forms_are_their_own() {
    for path in ["src/../src/a", "./b//c/", " d ", "e/./f"] {
        let once = normalize_resources(vec![path.into()], PathStyle::Slash).unwrap();
        assert_eq!(once.len(), 1);
        assert_eq!(normalize_resources(once.clone(), PathStyle::Slash).unwrap(), once);
    }
    let inner = normalize_resources(vec!["./ a".into()], PathStyle::Slash).unwrap();
    assert_eq!(inner, [" a"]);
    assert_eq!(normalize_resources(inner, PathStyle::Slash).unwrap(), ["a"]);
}

#[test]
fn overlap_is_by_names_not_by_letters() {
    let names = ["a", "ab", "b"];
    let mut paths: Vec<Vec<&str>> = names.iter().map(|name| vec![*name]).collect();
    for first in names {
        for second in names {
            paths.push(vec![first, second]);
        }
    }
    for left in &paths {
        for right in &paths {
            let leads = left.starts_with(right) || right.starts_with(left);
            assert_eq!(path_overlaps(&left.join("/"), &right.join("/")), leads);
        }
    }
}

#[test]
fn served_daemons_are_recognized() {
    let context = DaemonContext {
        endpoint: "http://127.0.0.1:7331".into(),
        record_file: "/repo/.clarity/daemon.json".into(),
        repository: "a/b".into(),
        build_id: "00000000000000ff".into(),
        record: None,
        address: Some(Address { text: "127.0.0.1:7331".into(), port: 7331, loopback: true }),
        owner_token: "token".into(),
    };
    let identity = served_identity(Some("token".into()), "a/b".into(), "00000000000000ff".into());
    assert_eq!(identity.protocol_version, DAEMON_PROTOCOL_VERSION);
    let probe = DaemonProbe::Identified(identity);
    let DaemonStep::Write { record } = context.probed_started(7, 40, &probe) else {
        panic!("the daemon is recorded");
    };
    assert_eq!(
        record,
        DaemonRecord {
            endpoint: "http://127.0.0.1:7331".into(),
            pid: 7,
            owner_token: Some("token".into()),
            repository: Some("a/b".into()),
            protocol_version: Some(1),
            build_id: Some("00000000000000ff".into()),
        }
    );
    let fresh = served_identity(None, "a/b".into(), "x".into());
    assert_eq!(fresh.owner_token.len(), 36);
    assert!(matches!(
        context.probed_started(7, 40, &DaemonProbe::Identified(fresh)),
        DaemonStep::CheckChild { pid: 7, left: 40 }
    ));
}

#[test]
fn starting_a_daemon_takes_a_bounded_number_of_steps() {
    let context = DaemonContext {
        endpoint: "http://127.0.0.1:7331".into(),
        record_file: "/repo/.clarity/daemon.json".into(),
        repository: "a/b".into(),
        build_id: "x".into(),
        record: Some(DaemonRecord {
            endpoint: "http://127.0.0.1:7331".into(),
            pid: 7,
            owner_token: None,
            repository: None,
            protocol_version: None,
            build_id: None,
        }),
        address: Some(Address { text: "127.0.0.1:7331".into(), port: 7331, loopback: true }),
        owner_token: "token".into(),
    };
    let alive = DaemonProbe::ForeignResponse;
    let mut step = context.start(&alive);
    let mut steps = 0;
    loop {
        step = match step {
            DaemonStep::Stop { pid, .. } => context.stopped(pid, true),
            DaemonStep::ProbeStopped { left } => context.probed_stopped(left, &alive),
            DaemonStep::PauseStopped { left } => context.paused_stopped(left),
            DaemonStep::ProbeGone => context.probed_gone(&DaemonProbe::Absent),
            DaemonStep::Remove => context.removed(),
            DaemonStep::Launch { .. } => context.launched(9),
            DaemonStep::ProbeStarted { pid, left } => context.probed_started(pid, left, &alive),
            DaemonStep::CheckChild { pid, left } => context.child_checked(pid, left, false),
            DaemonStep::PauseStarted { pid, left } => context.paused_started(pid, left),
            DaemonStep::Write { .. } => unreachable!(),
            DaemonStep::Done { .. } | DaemonStep::Fail { .. } => break,
        };
        steps += 1;
    }
    assert_eq!(steps, 204);
}

#[test]
fn git_is_asked_in_its_own_words() {
    assert_eq!(toplevel_arguments(), ["rev-parse", "--show-toplevel"]);
    assert_eq!(head_arguments(), ["rev-parse", "--verify", "--quiet", "HEAD"]);
    assert_eq!(origin_arguments(), ["remote", "get-url", "origin"]);
}
