use kittens_code::cli::fresh_header;
use kittens_code::driver::appender::{
    fresh_header_acceptable, header_schema_epoch, next_after, plan_open, refusal_text,
    AppendRefusal, LogLine, OpenError, CODEC, SUPPORTED_SCHEMA_EPOCH,
};
use kittens_code::prompts::prompt_pack_version;
use kittens_code::protocol::event::Event;
use kittens_code::protocol::ids::{EffectId, SessionId, TurnEpoch};
use kittens_code::record::{
    Checksum, DecodeOutcome, LogHeader, Record, RecordKind, RecordPayload, ScanError, TailFault,
};

fn header(session: u8) -> Record {
    Record::new(
        0,
        RecordKind::Header,
        None,
        TurnEpoch(0),
        RecordPayload::Header(LogHeader {
            session_id: SessionId([session; 16]),
            parent: None,
            schema_epoch: SUPPORTED_SCHEMA_EPOCH,
            prompt_pack_version: prompt_pack_version().0,
            verb_grammar_version: [1, 0, 0],
            l3_dialect_version: [1, 0, 0],
            codec: String::from(CODEC),
            created_at: None,
        }),
    )
    .expect("header")
}

fn event_record(seq: u64) -> Record {
    Record::new(
        seq,
        RecordKind::EmittedEvent,
        None,
        TurnEpoch(0),
        RecordPayload::EmittedEvent(Event::ShuttingDown),
    )
    .expect("event record")
}

#[test]
fn open_error_from_io_preserves_the_error() {
    let error = OpenError::from(std::io::Error::new(
        std::io::ErrorKind::PermissionDenied,
        "denied",
    ));
    assert!(matches!(
        error,
        OpenError::Io(inner) if inner.kind() == std::io::ErrorKind::PermissionDenied
    ));
}

#[test]
fn fresh_header_rejections_are_table_driven() {
    let mut bad_checksum = header(10);
    bad_checksum.checksum = Checksum(bad_checksum.checksum.0 ^ 1);

    let mut wrong_sequence = header(11);
    wrong_sequence.seq = 1;
    wrong_sequence.checksum = wrong_sequence.computed_checksum();

    let mut wrong_kind = header(12);
    wrong_kind.kind = RecordKind::EmittedEvent;
    wrong_kind.checksum = wrong_kind.computed_checksum();

    let mut non_header_payload = header(13);
    non_header_payload.payload = RecordPayload::EmittedEvent(Event::ShuttingDown);
    non_header_payload.checksum = non_header_payload.computed_checksum();

    let mut future_epoch = header(14);
    if let RecordPayload::Header(header) = &mut future_epoch.payload {
        header.schema_epoch = SUPPORTED_SCHEMA_EPOCH + 1;
    }
    future_epoch.checksum = future_epoch.computed_checksum();

    for candidate in [
        bad_checksum,
        wrong_sequence,
        wrong_kind,
        non_header_payload,
        future_epoch,
    ] {
        assert!(!fresh_header_acceptable(&candidate));
    }
    assert!(fresh_header_acceptable(&header(15)));
}

#[test]
fn header_epoch_is_read_only_from_header_payloads() {
    assert_eq!(header_schema_epoch(&header(20)), Some(SUPPORTED_SCHEMA_EPOCH));
    assert_eq!(header_schema_epoch(&event_record(1)), None);
}

#[test]
fn blank_lines_stay_in_the_valid_prefix() {
    let plan = plan_open(vec![
        LogLine::Decoded(DecodeOutcome::Good(header(21)), 100),
        LogLine::Blank(0),
        LogLine::Blank(3),
    ])
    .expect("blank lines are ignored");
    assert_eq!(plan.replayable.len(), 1);
    assert_eq!(plan.persisted, 0);
    assert_eq!(plan.next_seq, 1);
    assert_eq!(plan.truncate_to, None);
}

#[test]
fn a_tolerated_torn_tail_is_truncated_and_repaired() {
    let started = Record::new(
        1,
        RecordKind::StreamStarted,
        Some(EffectId(7)),
        TurnEpoch(1),
        RecordPayload::StreamStarted(Vec::new()),
    )
    .expect("stream start");
    let plan = plan_open(vec![
        LogLine::Decoded(DecodeOutcome::Good(header(22)), 10),
        LogLine::Decoded(DecodeOutcome::Good(started), 20),
        LogLine::Decoded(DecodeOutcome::Tail(TailFault::Torn), 5),
    ])
    .expect("a final torn line is tolerated");
    assert_eq!(plan.truncate_to, Some(32));
    assert_eq!(plan.repairs.len(), 1);
    assert_eq!(plan.repairs[0].seq, 2);
    assert_eq!(plan.replayable.len(), 3);
    assert_eq!(plan.next_seq, 3);
    assert_eq!(plan.persisted, 2);
}

#[test]
fn mid_log_corruption_is_a_scan_refusal() {
    let result = plan_open(vec![
        LogLine::Decoded(DecodeOutcome::Good(header(2)), 10),
        LogLine::Decoded(DecodeOutcome::Tail(TailFault::Torn), 5),
        LogLine::Decoded(DecodeOutcome::Good(event_record(1)), 10),
    ]);
    assert!(matches!(
        result,
        Err(OpenError::Scan(ScanError::TailFaultNotLast {
            fault: TailFault::Torn
        }))
    ));
}

#[test]
fn appends_follow_strict_sequence_order() {
    assert_eq!(next_after(3, 3), Ok(4));
    assert_eq!(next_after(3, 5), Err(AppendRefusal::OutOfSequence));
    assert_eq!(
        next_after(u64::MAX, u64::MAX),
        Err(AppendRefusal::SequenceExhausted)
    );
    assert_eq!(
        refusal_text(AppendRefusal::SequenceExhausted),
        "sequence namespace exhausted"
    );
}

#[test]
fn fresh_header_is_a_valid_supported_header() {
    let record = fresh_header(SessionId([7; 16])).unwrap();
    assert_eq!(record.seq, 0);
    assert_eq!(record.kind, RecordKind::Header);
    assert!(record.is_valid());
    assert!(fresh_header_acceptable(&record));
    match &record.payload {
        RecordPayload::Header(h) => {
            assert_eq!(h.codec, CODEC);
            assert_eq!(h.schema_epoch, SUPPORTED_SCHEMA_EPOCH);
            assert_eq!(h.prompt_pack_version, prompt_pack_version().0);
        }
        _ => panic!("header payload"),
    }
}
