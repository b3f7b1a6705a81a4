use chrono::{DateTime, Duration, Utc};
use clarity::coordination::{CoordinationState, Decision, DecisionContext, PendingEvent};
use clarity::identity::{event_id_text, new_event_id, parse_event_id};
use clarity::protocol::{
    Command, CommandResult, DirectionId, EnvironmentManifest, EventKind, LeaveReason,
    ParticipantId, RequestId, WorkId,
};
use clarity::runtime::{
    decode_row, is_log, new_row, prepare, seal, sequence, Commit, EventRow, RuntimeError,
};
use clarity::time::{Timestamp, FIRST_SECOND, LAST_SECOND, YEAR_9999, YEAR_ZERO};

fn at(seconds: i64, nanos: u32) -> Timestamp {
    Timestamp { seconds, nanos }
}

#[test]
fn the_calendar_is_that_of_chrono() {
    assert_eq!(DateTime::<Utc>::MIN_UTC.timestamp(), FIRST_SECOND);
    assert_eq!(DateTime::<Utc>::MAX_UTC.timestamp(), LAST_SECOND);
    assert_eq!(
        DateTime::parse_from_rfc3339("0000-01-01T00:00:00Z").unwrap().timestamp(),
        YEAR_ZERO
    );
    assert_eq!(
        DateTime::parse_from_rfc3339("9999-12-31T23:59:59Z").unwrap().timestamp(),
        YEAR_9999
    );
    let points = [
        at(FIRST_SECOND - 1, 0),
        at(FIRST_SECOND, 0),
        at(-61, 1_500_000_000),
        at(-1, 1_999_999_999),
        at(0, 999_999_999),
        at(0, 1_000_000_000),
        at(59, 1_000_000_000),
        at(59, 2_000_000_000),
        at(LAST_SECOND, 999_999_999),
        at(LAST_SECOND, 1_999_999_999),
        at(LAST_SECOND + 1, 0),
        at(i64::MIN, 0),
        at(i64::MAX, u32::MAX),
    ];
    for point in points {
        let known = DateTime::from_timestamp(point.seconds, point.nanos);
        assert_eq!(point.allows(0), known.is_some(), "{point:?}");
        if let Some(known) = known {
            for seconds in [5_u64, 300, 100_000] {
                assert_eq!(
                    point.allows(seconds),
                    known.checked_add_signed(Duration::seconds(seconds as i64)).is_some(),
                    "{point:?} {seconds}"
                );
            }
        }
        for other in points {
            let a = DateTime::from_timestamp(point.seconds, point.nanos);
            let b = DateTime::from_timestamp(other.seconds, other.nanos);
            if let (Some(a), Some(b)) = (a, b) {
                assert_eq!(point.precedes(&other), a < b);
            }
        }
    }
}

#[test]
fn leases_end_where_chrono_says() {
    let state = CoordinationState::new();
    for now in [at(0, 0), at(1_760_000_000, 123), at(59, 1_250_000_000), at(-30, 7)] {
        for lease_seconds in [5, 60, 300] {
            let decision = state.decide(
                Command::Join {
                    scope: "s".into(),
                    name: "n".into(),
                    manifest: EnvironmentManifest {
                        harness: "h".into(),
                        repository: None,
                        revision: None,
                        worktree: None,
                        capabilities: vec![],
                    },
                    lease_seconds,
                },
                &DecisionContext::at(now),
            );
            let Decision::Accepted { events, .. } = decision else {
                panic!("joining is accepted");
            };
            let EventKind::ParticipantJoined { participant } = &events[0].event else {
                panic!("a participant joined");
            };
            let end = DateTime::from_timestamp(now.seconds, now.nanos).unwrap()
                + Duration::seconds(lease_seconds as i64);
            assert_eq!(participant.expires_at.seconds, end.timestamp());
            assert_eq!(participant.expires_at.nanos, end.timestamp_subsec_nanos());
            assert_eq!(participant.joined_at, now);
        }
    }
}

#[test]
fn points_in_time_are_written_and_read_back() {
    assert_eq!(at(0, 0).to_rfc3339(), "1970-01-01T00:00:00+00:00");
    assert_eq!(
        at(1_760_000_000, 1_000_000).to_rfc3339(),
        "2025-10-09T08:53:20.001+00:00"
    );
    for point in [
        at(YEAR_ZERO, 0),
        at(YEAR_9999, 999_999_999),
        at(0, 1),
        at(59, 1_000_000_001),
        at(-1, 999_999_000),
    ] {
        assert_eq!(Timestamp::parse_from_rfc3339(&point.to_rfc3339()), Ok(point));
    }
    assert_eq!(
        Timestamp::parse_from_rfc3339("1970-01-01T01:00:00+01:00"),
        Ok(at(0, 0))
    );
    let far = at(YEAR_9999 + 1, 0).to_rfc3339();
    assert_eq!(far, "+10000-01-01T00:00:00+00:00");
    let refused = Timestamp::parse_from_rfc3339(&far).unwrap_err();
    assert_eq!(
        refused.reason,
        DateTime::parse_from_rfc3339(&far).unwrap_err().to_string()
    );
}

#[test]
fn identities_are_written_and_read_back() {
    let samples = [
        0,
        1,
        u128::MAX,
        0x0123_4567_89ab_cdef_0123_4567_89ab_cdef,
        new_event_id(),
    ];
    for value in samples {
        let text = event_id_text(value);
        assert_eq!(text, uuid::Uuid::from_u128(value).to_string());
        assert_eq!(parse_event_id(&text), Ok(value));
        assert_eq!(ParticipantId(value).to_text(), text);
        assert_eq!(ParticipantId::from_str(&text), Ok(ParticipantId(value)));
        assert_eq!(WorkId::from_str(&text), Ok(WorkId(value)));
        assert_eq!(DirectionId::from_str(&text), Ok(DirectionId(value)));
        assert_eq!(RequestId::from_str(&text), Ok(RequestId(value)));
        let simple = text.replace('-', "");
        for form in [
            simple.clone(),
            simple.to_uppercase(),
            text.to_uppercase(),
            format!("{{{text}}}"),
            format!("urn:uuid:{text}"),
            format!("URN:UUID:{text}"),
            format!("uRn:uUiD:{text}"),
        ] {
            assert_eq!(parse_event_id(&form), Ok(value), "{form}");
        }
    }
    for wrong in [
        "",
        "x",
        "0123456789abcdef0123456789abcdeg",
        "01234567-89ab-cdef-0123-456789abcdeg",
        "0123456789ab-cdef-0123-4567-89abcdef",
        "{01234567-89ab-cdef-0123-456789abcdef",
        "urn:uuid;01234567-89ab-cdef-0123-456789abcdef",
        "é1234567-89ab-cdef-0123-456789abcde",
        "éé34567-89ab-cdef-0123-456789abcdef0",
    ] {
        let refused = RequestId::from_str(wrong).unwrap_err();
        assert_eq!(refused.reason, uuid::Uuid::parse_str(wrong).unwrap_err().to_string());
    }
}

#[test]
fn new_identities_are_of_version_seven_and_grow() {
    let mut last = 0;
    for _ in 0..200 {
        let value = new_event_id();
        assert_eq!(uuid::Uuid::from_u128(value).get_version_num(), 7);
        assert_eq!((value >> 62) & 3, 2);
        assert!(value > last);
        last = value;
    }
    assert_ne!(ParticipantId::new(), ParticipantId::new());
    assert_ne!(WorkId::new(), WorkId::new());
    assert_ne!(DirectionId::new(), DirectionId::new());
    let context = DecisionContext::at(at(5, 6));
    assert_eq!(context.now, at(5, 6));
    assert_ne!(context.participant_id.0, context.work_id.0);
}

fn departure() -> PendingEvent {
    PendingEvent {
        scope: "linear:TG-1".into(),
        event: EventKind::ParticipantLeft {
            participant_id: ParticipantId(1),
            reason: LeaveReason::Graceful,
        },
    }
}

#[test]
fn rows_are_sealed_and_decoded() {
    let now = at(1_760_000_000, 5);
    let row = new_row(&departure(), 77, now);
    assert_eq!(row.event_id, "00000000-0000-0000-0000-00000000004d");
    assert_eq!(row.scope, "linear:TG-1");
    assert_eq!(row.emitted_at, "2025-10-09T08:53:20.000000005+00:00");
    let sealed = seal(departure(), 77, 9, now).unwrap();
    assert_eq!(sealed.sequence, 9);
    let stored = EventRow {
        sequence: 9,
        event_id: row.event_id,
        scope: row.scope,
        emitted_at: row.emitted_at,
    };
    assert_eq!(decode_row(stored.clone(), Ok(departure().event)), Ok(sealed.clone()));

    let event = || Ok::<_, String>(departure().event);
    let mut negative = stored.clone();
    negative.sequence = -3;
    negative.event_id = "bad".into();
    assert_eq!(
        decode_row(negative, Err("bad".into())),
        Err(RuntimeError::InvalidSequence(-3))
    );
    let mut unnamed = stored.clone();
    unnamed.event_id = "bad".into();
    unnamed.emitted_at = "bad".into();
    assert_eq!(
        decode_row(unnamed, event()),
        Err(RuntimeError::Serialization(
            uuid::Uuid::parse_str("bad").unwrap_err().to_string()
        ))
    );
    let mut undated = stored.clone();
    undated.emitted_at = "bad".into();
    assert_eq!(
        decode_row(undated, Err("not json".into())),
        Err(RuntimeError::Serialization(
            DateTime::parse_from_rfc3339("bad").unwrap_err().to_string()
        ))
    );
    assert_eq!(
        decode_row(stored, Err("not json".into())),
        Err(RuntimeError::Serialization("not json".into()))
    );
    assert_eq!(seal(departure(), 77, -1, now), Err(RuntimeError::InvalidSequence(-1)));
    assert_eq!(sequence(0), Ok(0));
    assert_eq!(sequence(i64::MAX), Ok(i64::MAX as u64));
    assert_eq!(sequence(i64::MIN), Err(RuntimeError::InvalidSequence(i64::MIN)));

    let mut later = sealed.clone();
    later.sequence = 10;
    assert!(is_log(&vec![sealed.clone(), later.clone()]));
    assert!(!is_log(&vec![later, sealed.clone()]));
    assert!(!is_log(&vec![sealed.clone(), sealed.clone()]));
    let mut zero = sealed;
    zero.sequence = 0;
    assert!(!is_log(&vec![zero]));
    assert!(is_log(&Vec::new()));
}

#[test]
fn rejections_are_answered_without_the_store() {
    assert!(matches!(
        prepare(Decision::Rejected("no".into())),
        Commit::Answer(CommandResult::Rejected { reason }) if reason == "no"
    ));
    assert!(matches!(
        prepare(Decision::Accepted { events: vec![], participant_id: None, work_id: None }),
        Commit::Append { events, .. } if events.is_empty()
    ));
}

#[test]
fn runtime_errors_say_what_happened() {
    assert_eq!(RuntimeError::Stopped.message(), "coordination runtime stopped");
    assert_eq!(RuntimeError::Store("x".into()).message(), "event store failed: x");
    assert_eq!(
        RuntimeError::Serialization("x".into()).message(),
        "event serialization failed: x"
    );
    assert_eq!(
        RuntimeError::InvalidSequence(i64::MIN).message(),
        "stored event has a negative sequence: -9223372036854775808"
    );
}
