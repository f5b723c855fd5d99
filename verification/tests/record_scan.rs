use kittens_code::protocol::ids::{EffectId, SessionId, TurnEpoch};
use kittens_code::record::{
    scan_records, Checksum, DecodeOutcome, LogHeader, Record, RecordBuildError, RecordKind,
    RecordPayload, RepairTerminalCause, ScanError, ScanResult, TailFault,
};

const SUPPORTED_SCHEMA_EPOCH: u32 = 3;

fn header(seq: u64) -> Record {
    Record::new(
        seq,
        RecordKind::Header,
        None,
        TurnEpoch(0),
        RecordPayload::Header(LogHeader {
            session_id: SessionId([0x11; 16]),
            parent: None,
            schema_epoch: SUPPORTED_SCHEMA_EPOCH,
            prompt_pack_version: [1, 2, 3],
            verb_grammar_version: [4, 5, 6],
            l3_dialect_version: [7, 8, 9],
            codec: String::from("jsonl"),
            created_at: Some(String::from("opaque-time")),
        }),
    )
    .expect("header kind and payload agree")
}

fn lifecycle(seq: u64, kind: RecordKind, txn: Option<u64>, epoch: u64) -> Record {
    let payload = match kind {
        RecordKind::StreamStarted => RecordPayload::StreamStarted(vec![1]),
        RecordKind::StreamProgress => RecordPayload::StreamProgress(vec![2]),
        RecordKind::StreamTerminal => RecordPayload::StreamTerminal(vec![3]),
        RecordKind::RepairTerminal => RecordPayload::RepairTerminal {
            cause: RepairTerminalCause::AbortedByCrash,
        },
        _ => panic!("test helper accepts only lifecycle kinds"),
    };
    Record::new(seq, kind, txn.map(EffectId), TurnEpoch(epoch), payload)
        .expect("lifecycle kind and payload agree")
}

fn scan(outcomes: Vec<DecodeOutcome>) -> Result<ScanResult, ScanError> {
    scan_records(outcomes, SUPPORTED_SCHEMA_EPOCH)
}

#[test]
fn validity_rejects_kind_and_checksum_corruption() {
    let original = lifecycle(1, RecordKind::StreamProgress, Some(7), 2);
    assert!(original.is_valid());

    let mut wrong_kind = original.clone();
    wrong_kind.kind = RecordKind::StreamTerminal;
    wrong_kind.checksum = wrong_kind.computed_checksum();
    assert!(!wrong_kind.is_valid());

    let mut wrong_checksum = original;
    wrong_checksum.checksum = Checksum(0);
    assert!(!wrong_checksum.is_valid());
}

#[test]
fn displays_describe_build_and_scan_errors() {
    let build = RecordBuildError::KindPayloadMismatch {
        kind: RecordKind::StreamStarted,
        payload_kind: RecordKind::StreamTerminal,
    };
    assert_eq!(
        build.describe(),
        "record kind StreamStarted does not match payload kind StreamTerminal"
    );

    let scan = ScanError::SequenceNotIncreasing {
        previous: 8,
        next: 7,
    };
    assert_eq!(
        scan.describe(),
        "transcript scan refused: SequenceNotIncreasing { previous: 8, next: 7 }"
    );
}

#[test]
fn scanner_rejects_unusable_headers_and_kind_payload_mismatch() {
    assert_eq!(
        scan(vec![DecodeOutcome::Tail(TailFault::Torn)]),
        Err(ScanError::HeaderUnavailable {
            fault: TailFault::Torn,
        })
    );

    let first = lifecycle(0, RecordKind::StreamStarted, Some(1), 0);
    assert_eq!(
        scan(vec![DecodeOutcome::Good(first)]),
        Err(ScanError::MissingHeader)
    );

    let mut corrupt_header = header(0);
    corrupt_header.checksum = Checksum(0);
    assert_eq!(
        scan(vec![DecodeOutcome::Good(corrupt_header)]),
        Err(ScanError::HeaderUnavailable {
            fault: TailFault::ChecksumMismatch,
        })
    );

    let mut mismatch = Record::new(
        1,
        RecordKind::EffectOutcome,
        None,
        TurnEpoch(1),
        RecordPayload::EffectOutcome(vec![1]),
    )
    .expect("initial record agrees");
    mismatch.kind = RecordKind::AcceptedOp;
    mismatch.checksum = mismatch.computed_checksum();
    assert_eq!(
        scan(vec![
            DecodeOutcome::Good(header(0)),
            DecodeOutcome::Good(mismatch),
        ]),
        Err(ScanError::KindPayloadMismatch {
            seq: 1,
            kind: RecordKind::AcceptedOp,
            payload_kind: RecordKind::EffectOutcome,
        })
    );

    let not_last_checksum = scan(vec![
        DecodeOutcome::Good(header(0)),
        DecodeOutcome::Tail(TailFault::ChecksumMismatch),
        DecodeOutcome::Good(lifecycle(1, RecordKind::StreamStarted, Some(2), 0)),
    ]);
    assert_eq!(
        not_last_checksum,
        Err(ScanError::TailFaultNotLast {
            fault: TailFault::ChecksumMismatch,
        })
    );
}

#[test]
fn scanner_rejects_duplicate_terminals_and_terminal_epoch_drift() {
    let duplicate = scan(vec![
        DecodeOutcome::Good(header(0)),
        DecodeOutcome::Good(lifecycle(1, RecordKind::StreamStarted, Some(5), 2)),
        DecodeOutcome::Good(lifecycle(2, RecordKind::StreamTerminal, Some(5), 2)),
        DecodeOutcome::Good(lifecycle(3, RecordKind::RepairTerminal, Some(5), 2)),
    ]);
    assert_eq!(
        duplicate,
        Err(ScanError::DuplicateTerminal {
            txn: EffectId(5),
            seq: 3,
        })
    );

    let drift = scan(vec![
        DecodeOutcome::Good(header(0)),
        DecodeOutcome::Good(lifecycle(1, RecordKind::StreamStarted, Some(6), 2)),
        DecodeOutcome::Good(lifecycle(2, RecordKind::StreamTerminal, Some(6), 3)),
    ]);
    assert_eq!(
        drift,
        Err(ScanError::TransactionEpochMismatch {
            txn: EffectId(6),
            started: TurnEpoch(2),
            found: TurnEpoch(3),
            seq: 2,
        })
    );
}

#[test]
fn scanner_accepts_header_only_and_final_tail_without_repairs() {
    let rewind = Record::new(
        1,
        RecordKind::RewindMarker,
        None,
        TurnEpoch(0),
        RecordPayload::RewindMarker {
            retain_through_seq: 0,
        },
    )
    .expect("rewind kind and payload agree");
    let clean = scan(vec![DecodeOutcome::Good(header(0)), DecodeOutcome::Good(rewind)])
        .expect("a complete non-lifecycle record is clean");
    assert!(clean.repairs.is_empty());
    assert_eq!(clean.replayable.len(), 2);
    assert_eq!(clean.ignored_tail, None);

    let tailed = scan(vec![
        DecodeOutcome::Good(header(0)),
        DecodeOutcome::Tail(TailFault::ChecksumMismatch),
    ])
    .expect("a final checksum tail is tolerated");
    assert!(tailed.repairs.is_empty());
    assert_eq!(tailed.ignored_tail, Some(TailFault::ChecksumMismatch));
}

