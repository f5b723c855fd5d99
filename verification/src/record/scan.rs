//! Startup scanning: checks a decoded prefix, prepares crash terminals, and
//! returns replay data.

use vstd::prelude::*;

use crate::protocol::ids::{EffectId, TurnEpoch};
use crate::record::{
    checksum_of, kind_name, payload_kind, sealed, Checksum, Record, RecordKind, RecordPayload,
    RepairTerminalCause,
};
use crate::text::{decimal, push_decimal};

verus! {

/// A decoder's reason for truncating the valid record prefix.
#[derive(Clone, Copy, Debug, PartialEq, Eq, Structural)]
pub enum TailFault {
    /// The final frame ended before a complete record was decoded.
    Torn,
    /// The final complete-looking frame failed its checksum.
    ChecksumMismatch,
}

/// One item supplied by a framing/codec decoder to the pure scanner.
#[derive(Debug, PartialEq, Eq)]
pub enum DecodeOutcome {
    /// A complete record accepted by the decoder, including its checksum.
    ///
    /// The scanner defensively recomputes the checksum and treats a mismatch
    /// as a decoder-contract violation rather than as a tolerable tail.
    Good(Record),
    /// The end of the valid prefix; this marker and the suffix are ignored.
    Tail(TailFault),
}

/// The startup scan's append and replay plan.
#[derive(Debug, PartialEq, Eq)]
pub struct ScanResult {
    /// Exact records that the sole appender must persist before replay.
    pub repairs: Vec<Record>,
    /// Valid decoded prefix followed by the repair suffix. A driver must not
    /// replay this sequence until every repair is durable.
    pub replayable: Vec<Record>,
    /// Tail failure that ended the valid prefix, if one was observed.
    pub ignored_tail: Option<TailFault>,
}

/// A semantic refusal from startup scanning.
#[allow(inconsistent_fields)]
#[derive(Clone, Copy, Debug, PartialEq, Eq, Structural)]
pub enum ScanError {
    /// No usable first header record exists.
    MissingHeader,
    /// The header could not be trusted because its frame was damaged.
    HeaderUnavailable {
        /// Damage reported by the decoder or checksum recheck.
        fault: TailFault,
    },
    /// This binary is older than the persisted schema.
    SchemaIncompatible {
        /// Epoch found in the header.
        found: u32,
        /// Highest epoch this scanner understands.
        supported: u32,
    },
    /// A second header appeared after the mandatory first record.
    DuplicateHeader {
        /// Sequence carrying the duplicate.
        seq: u64,
    },
    /// A decoded record's explicit kind disagreed with its payload.
    KindPayloadMismatch {
        /// Sequence carrying the mismatch.
        seq: u64,
        /// Explicit record discriminator.
        kind: RecordKind,
        /// Discriminator required by the payload.
        payload_kind: RecordKind,
    },
    /// A `Good` decoder outcome did not survive defensive checksum validation.
    ChecksumMismatch {
        /// Sequence carried by the invalid record.
        seq: u64,
    },
    /// A tail marker was followed by another decoder outcome.
    TailFaultNotLast {
        /// Fault incorrectly reported before the input ended.
        fault: TailFault,
    },
    /// Sequence numbers failed to increase strictly.
    SequenceNotIncreasing {
        /// Last accepted sequence.
        previous: u64,
        /// Invalid following sequence.
        next: u64,
    },
    /// A lifecycle record omitted its transaction id.
    MissingTransaction {
        /// Sequence carrying the invalid lifecycle record.
        seq: u64,
        /// Lifecycle kind requiring a transaction.
        kind: RecordKind,
    },
    /// The same transaction was started more than once.
    DuplicateStarted {
        /// Reused transaction id.
        txn: EffectId,
        /// Sequence carrying the duplicate start.
        seq: u64,
    },
    /// Progress appeared before a still-open start.
    ProgressWithoutStarted {
        /// Transaction named by the progress record.
        txn: EffectId,
        /// Sequence carrying the progress record.
        seq: u64,
    },
    /// A terminal appeared without any earlier start.
    TerminalWithoutStarted {
        /// Transaction named by the terminal.
        txn: EffectId,
        /// Sequence carrying the terminal.
        seq: u64,
    },
    /// A transaction received more than one terminal.
    DuplicateTerminal {
        /// Already closed transaction.
        txn: EffectId,
        /// Sequence carrying the duplicate terminal.
        seq: u64,
    },
    /// Lifecycle records for one transaction disagreed on turn epoch.
    TransactionEpochMismatch {
        /// Transaction whose epochs differed.
        txn: EffectId,
        /// Epoch on its start record.
        started: TurnEpoch,
        /// Epoch on the later lifecycle record.
        found: TurnEpoch,
        /// Sequence carrying the later epoch.
        seq: u64,
    },
    /// No sequence number remains for a required repair terminal.
    SequenceExhausted,
}

/// The variant name of a tail fault.
pub open spec fn fault_text(f: TailFault) -> Seq<char> {
    match f {
        TailFault::Torn => "Torn"@,
        TailFault::ChecksumMismatch => "ChecksumMismatch"@,
    }
}

/// An effect id as its tuple struct is written.
pub open spec fn effect_text(t: EffectId) -> Seq<char> {
    "EffectId("@ + decimal(t.0 as nat) + ")"@
}

/// A turn epoch as its tuple struct is written.
pub open spec fn epoch_text(e: TurnEpoch) -> Seq<char> {
    "TurnEpoch("@ + decimal(e.0 as nat) + ")"@
}

/// A scan error as its variant and fields are written.
pub open spec fn scan_error_fields(e: ScanError) -> Seq<char> {
    match e {
        ScanError::MissingHeader => "MissingHeader"@,
        ScanError::HeaderUnavailable { fault } => "HeaderUnavailable { fault: "@ + fault_text(fault)
            + " }"@,
        ScanError::SchemaIncompatible { found, supported } => "SchemaIncompatible { found: "@
            + decimal(found as nat) + ", supported: "@ + decimal(supported as nat) + " }"@,
        ScanError::DuplicateHeader { seq } => "DuplicateHeader { seq: "@ + decimal(seq as nat)
            + " }"@,
        ScanError::KindPayloadMismatch { seq, kind, payload_kind } => "KindPayloadMismatch { seq: "@
            + decimal(seq as nat) + ", kind: "@ + kind_name(kind) + ", payload_kind: "@ + kind_name(
            payload_kind,
        ) + " }"@,
        ScanError::ChecksumMismatch { seq } => "ChecksumMismatch { seq: "@ + decimal(seq as nat)
            + " }"@,
        ScanError::TailFaultNotLast { fault } => "TailFaultNotLast { fault: "@ + fault_text(fault)
            + " }"@,
        ScanError::SequenceNotIncreasing { previous, next } => "SequenceNotIncreasing { previous: "@
            + decimal(previous as nat) + ", next: "@ + decimal(next as nat) + " }"@,
        ScanError::MissingTransaction { seq, kind } => "MissingTransaction { seq: "@ + decimal(
            seq as nat,
        ) + ", kind: "@ + kind_name(kind) + " }"@,
        ScanError::DuplicateStarted { txn, seq } => "DuplicateStarted { txn: "@ + effect_text(txn)
            + ", seq: "@ + decimal(seq as nat) + " }"@,
        ScanError::ProgressWithoutStarted { txn, seq } => "ProgressWithoutStarted { txn: "@
            + effect_text(txn) + ", seq: "@ + decimal(seq as nat) + " }"@,
        ScanError::TerminalWithoutStarted { txn, seq } => "TerminalWithoutStarted { txn: "@
            + effect_text(txn) + ", seq: "@ + decimal(seq as nat) + " }"@,
        ScanError::DuplicateTerminal { txn, seq } => "DuplicateTerminal { txn: "@ + effect_text(txn)
            + ", seq: "@ + decimal(seq as nat) + " }"@,
        ScanError::TransactionEpochMismatch { txn, started, found, seq } =>
            "TransactionEpochMismatch { txn: "@ + effect_text(txn) + ", started: "@ + epoch_text(
            started,
        ) + ", found: "@ + epoch_text(found) + ", seq: "@ + decimal(seq as nat) + " }"@,
        ScanError::SequenceExhausted => "SequenceExhausted"@,
    }
}

fn push_fault(out: &mut String, f: TailFault)
    ensures
        final(out)@ == old(out)@ + fault_text(f),
{
    match f {
        TailFault::Torn => out.append("Torn"),
        TailFault::ChecksumMismatch => out.append("ChecksumMismatch"),
    }
}

fn push_effect(out: &mut String, t: EffectId)
    ensures
        final(out)@ == old(out)@ + effect_text(t),
{
    out.append("EffectId(");
    push_decimal(out, t.0);
    out.append(")");
    assert(out@ =~= old(out)@ + effect_text(t));
}

fn push_epoch(out: &mut String, e: TurnEpoch)
    ensures
        final(out)@ == old(out)@ + epoch_text(e),
{
    out.append("TurnEpoch(");
    push_decimal(out, e.0);
    out.append(")");
    assert(out@ =~= old(out)@ + epoch_text(e));
}

fn push_seq_field(out: &mut String, label: &str, seq: u64)
    ensures
        final(out)@ == old(out)@ + label@ + decimal(seq as nat) + " }"@,
{
    out.append(label);
    push_decimal(out, seq);
    out.append(" }");
    assert(out@ =~= old(out)@ + label@ + decimal(seq as nat) + " }"@);
}

fn push_txn_seq(out: &mut String, head: &str, txn: EffectId, seq: u64)
    ensures
        final(out)@ == old(out)@ + head@ + effect_text(txn) + ", seq: "@ + decimal(seq as nat)
            + " }"@,
{
    out.append(head);
    push_effect(out, txn);
    push_seq_field(out, ", seq: ", seq);
    assert(out@ =~= old(out)@ + head@ + effect_text(txn) + ", seq: "@ + decimal(seq as nat)
        + " }"@);
}

impl ScanError {
    /// Human-readable description: the refusal and its variant, as its
    /// fields are written.
    pub fn describe(&self) -> (r: String)
        ensures
            r@ == "transcript scan refused: "@ + scan_error_fields(*self),
    {
        let mut out = String::new();
        out.append("transcript scan refused: ");
        let ghost start = out@;
        match *self {
            ScanError::MissingHeader => out.append("MissingHeader"),
            ScanError::HeaderUnavailable { fault } => {
                out.append("HeaderUnavailable { fault: ");
                push_fault(&mut out, fault);
                out.append(" }");
            },
            ScanError::SchemaIncompatible { found, supported } => {
                out.append("SchemaIncompatible { found: ");
                push_decimal(&mut out, found as u64);
                push_seq_field(&mut out, ", supported: ", supported as u64);
            },
            ScanError::DuplicateHeader { seq } => push_seq_field(&mut out, "DuplicateHeader { seq: ", seq),
            ScanError::KindPayloadMismatch { seq, kind, payload_kind } => {
                out.append("KindPayloadMismatch { seq: ");
                push_decimal(&mut out, seq);
                out.append(", kind: ");
                out.append(kind.name());
                out.append(", payload_kind: ");
                out.append(payload_kind.name());
                out.append(" }");
            },
            ScanError::ChecksumMismatch { seq } => push_seq_field(&mut out, "ChecksumMismatch { seq: ", seq),
            ScanError::TailFaultNotLast { fault } => {
                out.append("TailFaultNotLast { fault: ");
                push_fault(&mut out, fault);
                out.append(" }");
            },
            ScanError::SequenceNotIncreasing { previous, next } => {
                out.append("SequenceNotIncreasing { previous: ");
                push_decimal(&mut out, previous);
                push_seq_field(&mut out, ", next: ", next);
            },
            ScanError::MissingTransaction { seq, kind } => {
                out.append("MissingTransaction { seq: ");
                push_decimal(&mut out, seq);
                out.append(", kind: ");
                out.append(kind.name());
                out.append(" }");
            },
            ScanError::DuplicateStarted { txn, seq } => push_txn_seq(&mut out, "DuplicateStarted { txn: ", txn, seq),
            ScanError::ProgressWithoutStarted { txn, seq } => push_txn_seq(&mut out, "ProgressWithoutStarted { txn: ", txn, seq),
            ScanError::TerminalWithoutStarted { txn, seq } => push_txn_seq(&mut out, "TerminalWithoutStarted { txn: ", txn, seq),
            ScanError::DuplicateTerminal { txn, seq } => push_txn_seq(&mut out, "DuplicateTerminal { txn: ", txn, seq),
            ScanError::TransactionEpochMismatch { txn, started, found, seq } => {
                out.append("TransactionEpochMismatch { txn: ");
                push_effect(&mut out, txn);
                out.append(", started: ");
                push_epoch(&mut out, started);
                out.append(", found: ");
                push_epoch(&mut out, found);
                push_seq_field(&mut out, ", seq: ", seq);
            },
            ScanError::SequenceExhausted => out.append("SequenceExhausted"),
        }
        assert(out@ =~= "transcript scan refused: "@ + scan_error_fields(*self));
        out
    }
}

/// One started transaction, in start order, with its start epoch and
/// whether it is still awaiting a terminal.
#[derive(Clone, Copy, Debug, PartialEq, Eq, Structural)]
pub struct TxnEntry {
    /// The transaction (effect) id.
    pub txn: u64,
    /// The epoch on its start record.
    pub epoch: u64,
    /// No terminal has closed it yet.
    pub open: bool,
}

/// Index of the entry for `txn`, or `-1`.
pub open spec fn find_txn(s: Seq<TxnEntry>, txn: u64) -> int
    decreases s.len(),
{
    if s.len() == 0 {
        -1
    } else if s.last().txn == txn {
        s.len() - 1
    } else {
        find_txn(s.drop_last(), txn)
    }
}

/// The lifecycle effect of one record on the transaction table.
pub open spec fn lifecycle_step(s: Seq<TxnEntry>, r: Record) -> Result<Seq<TxnEntry>, ScanError> {
    match r.kind {
        RecordKind::StreamStarted => match r.txn {
            None => Err(ScanError::MissingTransaction { seq: r.seq, kind: r.kind }),
            Some(t) => if find_txn(s, t.0) >= 0 {
                Err(ScanError::DuplicateStarted { txn: t, seq: r.seq })
            } else {
                Ok(s.push(TxnEntry { txn: t.0, epoch: r.epoch.0, open: true }))
            },
        },
        RecordKind::StreamProgress => match r.txn {
            None => Err(ScanError::MissingTransaction { seq: r.seq, kind: r.kind }),
            Some(t) => {
                let i = find_txn(s, t.0);
                if i < 0 || !s[i].open {
                    Err(ScanError::ProgressWithoutStarted { txn: t, seq: r.seq })
                } else if s[i].epoch != r.epoch.0 {
                    Err(
                        ScanError::TransactionEpochMismatch {
                            txn: t,
                            started: TurnEpoch(s[i].epoch),
                            found: r.epoch,
                            seq: r.seq,
                        },
                    )
                } else {
                    Ok(s)
                }
            },
        },
        RecordKind::StreamTerminal | RecordKind::RepairTerminal => match r.txn {
            None => Err(ScanError::MissingTransaction { seq: r.seq, kind: r.kind }),
            Some(t) => {
                let i = find_txn(s, t.0);
                if i < 0 {
                    Err(ScanError::TerminalWithoutStarted { txn: t, seq: r.seq })
                } else if !s[i].open {
                    Err(ScanError::DuplicateTerminal { txn: t, seq: r.seq })
                } else if s[i].epoch != r.epoch.0 {
                    Err(
                        ScanError::TransactionEpochMismatch {
                            txn: t,
                            started: TurnEpoch(s[i].epoch),
                            found: r.epoch,
                            seq: r.seq,
                        },
                    )
                } else {
                    Ok(s.update(i, TxnEntry { open: false, ..s[i] }))
                }
            },
        },
        _ => Ok(s),
    }
}

/// Checks one record after the header, in the documented order.
pub open spec fn record_step(last: u64, s: Seq<TxnEntry>, r: Record) -> Result<
    Seq<TxnEntry>,
    ScanError,
> {
    if r.checksum.0 != checksum_of(r) {
        Err(ScanError::ChecksumMismatch { seq: r.seq })
    } else if r.kind != payload_kind(r.payload) {
        Err(
            ScanError::KindPayloadMismatch {
                seq: r.seq,
                kind: r.kind,
                payload_kind: payload_kind(r.payload),
            },
        )
    } else if r.seq <= last {
        Err(ScanError::SequenceNotIncreasing { previous: last, next: r.seq })
    } else if r.kind == RecordKind::Header {
        Err(ScanError::DuplicateHeader { seq: r.seq })
    } else {
        lifecycle_step(s, r)
    }
}

/// What scanning the outcomes from index `i` on yields: the last accepted
/// sequence, the transaction table, the index where accepted records end,
/// and the tolerated tail fault.
pub open spec fn scan_from(outs: Seq<DecodeOutcome>, i: int, last: u64, s: Seq<TxnEntry>) -> Result<
    (u64, Seq<TxnEntry>, int, Option<TailFault>),
    ScanError,
>
    decreases outs.len() - i,
{
    if i >= outs.len() || i < 0 {
        Ok((last, s, i, None))
    } else {
        match outs[i] {
            DecodeOutcome::Tail(f) => if i + 1 < outs.len() {
                Err(ScanError::TailFaultNotLast { fault: f })
            } else {
                Ok((last, s, i, Some(f)))
            },
            DecodeOutcome::Good(r) => match record_step(last, s, r) {
                Err(e) => Err(e),
                Ok(s2) => scan_from(outs, i + 1, r.seq, s2),
            },
        }
    }
}

/// The first outcome must be a compatible header with a valid checksum; the
/// schema comparison happens before the checksum check.
pub open spec fn scan_head(outs: Seq<DecodeOutcome>, supported: u32) -> Result<Record, ScanError> {
    if outs.len() == 0 {
        Err(ScanError::MissingHeader)
    } else {
        match outs[0] {
            DecodeOutcome::Tail(f) => Err(ScanError::HeaderUnavailable { fault: f }),
            DecodeOutcome::Good(r) => match r.payload {
                RecordPayload::Header(h) => if r.kind != RecordKind::Header {
                    Err(ScanError::MissingHeader)
                } else if h.schema_epoch > supported {
                    Err(ScanError::SchemaIncompatible { found: h.schema_epoch, supported })
                } else if r.checksum.0 != checksum_of(r) {
                    Err(ScanError::HeaderUnavailable { fault: TailFault::ChecksumMismatch })
                } else {
                    Ok(r)
                },
                _ => Err(ScanError::MissingHeader),
            },
        }
    }
}

/// The still-open transactions, in start order.
pub open spec fn open_entries(s: Seq<TxnEntry>) -> Seq<TxnEntry>
    decreases s.len(),
{
    if s.len() == 0 {
        Seq::empty()
    } else if s.last().open {
        open_entries(s.drop_last()).push(s.last())
    } else {
        open_entries(s.drop_last())
    }
}

/// The repair terminal closing `e` at sequence `seq`.
pub open spec fn repair_record(seq: u64, e: TxnEntry) -> Record {
    sealed(
        Record {
            seq,
            kind: RecordKind::RepairTerminal,
            txn: Some(EffectId(e.txn)),
            epoch: TurnEpoch(e.epoch),
            payload: RecordPayload::RepairTerminal { cause: RepairTerminalCause::AbortedByCrash },
            checksum: Checksum(0),
        },
    )
}

/// The repair terminals for every still-open transaction, in start order,
/// with contiguous sequence numbers after `last`.
pub open spec fn repairs_for(last: u64, s: Seq<TxnEntry>) -> Seq<Record> {
    let open = open_entries(s);
    Seq::new(open.len(), |k: int| repair_record((last + k + 1) as u64, open[k]))
}

/// The records decoded `Good` at indices `[from, to)`.
pub open spec fn goods(outs: Seq<DecodeOutcome>, from: int, to: int) -> Seq<Record> {
    Seq::new(
        (to - from) as nat,
        |k: int|
            match outs[from + k] {
                DecodeOutcome::Good(r) => r,
                DecodeOutcome::Tail(_) => arbitrary(),
            },
    )
}

/// The complete scan: on success, the replayable records (accepted prefix
/// followed by repairs), the repairs, and the tolerated tail.
pub open spec fn scan_spec(outs: Seq<DecodeOutcome>, supported: u32) -> Result<
    (Seq<Record>, Seq<Record>, Option<TailFault>),
    ScanError,
> {
    match scan_head(outs, supported) {
        Err(e) => Err(e),
        Ok(head) => match scan_from(outs, 1, head.seq, Seq::empty()) {
            Err(e) => Err(e),
            Ok((last, s, end, tail)) => {
                let n = open_entries(s).len();
                if last + n > u64::MAX {
                    Err(ScanError::SequenceExhausted)
                } else {
                    let repairs = repairs_for(last, s);
                    Ok((seq![head] + goods(outs, 1, end) + repairs, repairs, tail))
                }
            },
        },
    }
}

proof fn lemma_scan_from(outs: Seq<DecodeOutcome>, i: int, last: u64, s: Seq<TxnEntry>)
    requires
        0 <= i <= outs.len(),
    ensures
        scan_from(outs, i, last, s) matches Ok((l2, s2, end, tail)) ==> {
            &&& i <= end <= outs.len()
            &&& forall|k: int| i <= k < end ==> (#[trigger] outs[k]) is Good
            &&& forall|k: int| i <= k < end ==> (#[trigger] outs[k])->Good_0.seq > last
            &&& forall|k1: int, k2: int|
                i <= k1 < k2 < end ==> (#[trigger] outs[k1])->Good_0.seq < (
                #[trigger] outs[k2])->Good_0.seq
            &&& l2 == if end > i {
                outs[end - 1]->Good_0.seq
            } else {
                last
            }
            &&& match tail {
                Some(f) => end == outs.len() - 1 && outs[end] == DecodeOutcome::Tail(f),
                None => end == outs.len(),
            }
        },
    decreases outs.len() - i,
{
    if i < outs.len() {
        if let DecodeOutcome::Good(r) = outs[i] {
            if let Ok(s2) = record_step(last, s, r) {
                lemma_scan_from(outs, i + 1, r.seq, s2);
            }
        }
    }
}

/// A successful scan replays the header, then the accepted records in log
/// order, then one repair terminal per transaction left open. The header
/// is compatible with the supported schema; sequence numbers strictly
/// increase throughout, and the repairs continue the accepted numbering
/// without a gap. A tolerated tail fault is the last outcome and stops the
/// accepted records.
pub proof fn lemma_scan_shape(outs: Seq<DecodeOutcome>, supported: u32)
    ensures
        scan_spec(outs, supported) matches Ok((rep, repairs, tail)) ==> {
            let a = rep.len() - repairs.len();
            &&& a >= 1
            &&& rep[0].kind == RecordKind::Header
            &&& rep[0].payload matches RecordPayload::Header(h) && h.schema_epoch <= supported
            &&& outs[0] == DecodeOutcome::Good(rep[0])
            &&& forall|k: int| 0 < k < a ==> outs[k] == DecodeOutcome::Good(#[trigger] rep[k])
            &&& rep.skip(a) == repairs
            &&& forall|i: int, j: int| 0 <= i < j < rep.len() ==> (#[trigger] rep[i]).seq < (
            #[trigger] rep[j]).seq
            &&& forall|k: int|
                0 <= k < repairs.len() ==> (#[trigger] repairs[k]).seq == rep[a - 1].seq + 1 + k
                    && repairs[k].kind == RecordKind::RepairTerminal
            &&& tail matches Some(f) ==> outs.len() == a + 1 && outs[a] == DecodeOutcome::Tail(f)
            &&& tail is None ==> outs.len() == a
        },
{
    if let Ok(head) = scan_head(outs, supported) {
        lemma_scan_from(outs, 1, head.seq, Seq::empty());
        if let Ok((last, s, end, tail)) = scan_from(outs, 1, head.seq, Seq::empty()) {
            let n = open_entries(s).len();
            if last + n <= u64::MAX {
                let repairs = repairs_for(last, s);
                let g = goods(outs, 1, end);
                let rep = seq![head] + g + repairs;
                let a = rep.len() - repairs.len();
                assert(a == end);
                assert(rep.skip(a) =~= repairs);
                assert forall|k: int| 0 < k < a implies outs[k] == DecodeOutcome::Good(
                    #[trigger] rep[k],
                ) by {
                    assert(rep[k] == g[k - 1]);
                    assert(outs[k] is Good);
                }
                assert(rep[a - 1].seq == last) by {
                    if end > 1 {
                        assert(rep[a - 1] == g[end - 2]);
                    }
                }
                assert forall|i: int, j: int| 0 <= i < j < rep.len() implies (#[trigger] rep[i]).seq
                    < (#[trigger] rep[j]).seq by {
                    if j < a {
                        if i > 0 {
                            assert(rep[i] == g[i - 1] && rep[j] == g[j - 1]);
                            assert(outs[i] is Good && outs[j] is Good);
                        } else {
                            assert(rep[j] == g[j - 1]);
                            assert(outs[j] is Good);
                        }
                    } else {
                        assert(rep[j] == repairs[j - a]);
                        assert(rep[a - 1].seq <= last);
                        if i >= a {
                            assert(rep[i] == repairs[i - a]);
                        } else if i > 0 {
                            assert(rep[i] == g[i - 1]);
                            assert(outs[i] is Good);
                            if i < a - 1 {
                                assert(rep[a - 1] == g[a - 2]);
                            }
                        }
                    }
                }
            }
        }
    }
}

fn find_entry(table: &Vec<TxnEntry>, txn: u64) -> (r: Option<usize>)
    ensures
        match r {
            Some(i) => i < table@.len() && i as int == find_txn(table@, txn),
            None => find_txn(table@, txn) == -1,
        },
{
    let mut i = table.len();
    assert(table@.take(i as int) =~= table@);
    while i > 0
        invariant
            i <= table@.len(),
            find_txn(table@, txn) == find_txn(table@.take(i as int), txn),
        decreases i,
    {
        assert(table@.take(i as int).drop_last() =~= table@.take(i - 1));
        if table[i - 1].txn == txn {
            return Some(i - 1);
        }
        i = i - 1;
    }
    None
}

proof fn lemma_find_txn_bounds(s: Seq<TxnEntry>, txn: u64)
    ensures
        -1 <= find_txn(s, txn) < s.len(),
        find_txn(s, txn) >= 0 ==> s[find_txn(s, txn)].txn == txn,
    decreases s.len(),
{
    if s.len() > 0 {
        lemma_find_txn_bounds(s.drop_last(), txn);
    }
}

fn apply_lifecycle(record: &Record, table: &mut Vec<TxnEntry>) -> (r: Result<(), ScanError>)
    ensures
        match lifecycle_step(old(table)@, *record) {
            Ok(s) => r is Ok && final(table)@ == s,
            Err(e) => r == Err::<(), ScanError>(e),
        },
{
    proof {
        lemma_find_txn_bounds(table@, 0);
    }
    match record.kind {
        RecordKind::StreamStarted => {
            let txn = match record.txn {
                None => {
                    return Err(ScanError::MissingTransaction { seq: record.seq, kind: record.kind });
                },
                Some(t) => t,
            };
            if find_entry(table, txn.0).is_some() {
                return Err(ScanError::DuplicateStarted { txn, seq: record.seq });
            }
            table.push(TxnEntry { txn: txn.0, epoch: record.epoch.0, open: true });
            Ok(())
        },
        RecordKind::StreamProgress => {
            let txn = match record.txn {
                None => {
                    return Err(ScanError::MissingTransaction { seq: record.seq, kind: record.kind });
                },
                Some(t) => t,
            };
            proof {
                lemma_find_txn_bounds(table@, txn.0);
            }
            let i = match find_entry(table, txn.0) {
                None => {
                    return Err(ScanError::ProgressWithoutStarted { txn, seq: record.seq });
                },
                Some(i) => i,
            };
            if !table[i].open {
                return Err(ScanError::ProgressWithoutStarted { txn, seq: record.seq });
            }
            if table[i].epoch != record.epoch.0 {
                return Err(
                    ScanError::TransactionEpochMismatch {
                        txn,
                        started: TurnEpoch(table[i].epoch),
                        found: record.epoch,
                        seq: record.seq,
                    },
                );
            }
            Ok(())
        },
        RecordKind::StreamTerminal | RecordKind::RepairTerminal => {
            let txn = match record.txn {
                None => {
                    return Err(ScanError::MissingTransaction { seq: record.seq, kind: record.kind });
                },
                Some(t) => t,
            };
            proof {
                lemma_find_txn_bounds(table@, txn.0);
            }
            let i = match find_entry(table, txn.0) {
                None => {
                    return Err(ScanError::TerminalWithoutStarted { txn, seq: record.seq });
                },
                Some(i) => i,
            };
            if !table[i].open {
                return Err(ScanError::DuplicateTerminal { txn, seq: record.seq });
            }
            if table[i].epoch != record.epoch.0 {
                return Err(
                    ScanError::TransactionEpochMismatch {
                        txn,
                        started: TurnEpoch(table[i].epoch),
                        found: record.epoch,
                        seq: record.seq,
                    },
                );
            }
            let entry = TxnEntry { txn: table[i].txn, epoch: table[i].epoch, open: false };
            table.set(i, entry);
            Ok(())
        },
        _ => Ok(()),
    }
}

fn check_record(record: &Record, last: u64, table: &mut Vec<TxnEntry>) -> (r: Result<(), ScanError>)
    ensures
        match record_step(last, old(table)@, *record) {
            Ok(s) => r is Ok && final(table)@ == s,
            Err(e) => r == Err::<(), ScanError>(e),
        },
{
    if record.checksum.0 != record.computed_checksum().0 {
        return Err(ScanError::ChecksumMismatch { seq: record.seq });
    }
    let payload_kind = record.payload.kind();
    if record.kind != payload_kind {
        return Err(ScanError::KindPayloadMismatch { seq: record.seq, kind: record.kind, payload_kind });
    }
    if record.seq <= last {
        return Err(ScanError::SequenceNotIncreasing { previous: last, next: record.seq });
    }
    if record.kind == RecordKind::Header {
        return Err(ScanError::DuplicateHeader { seq: record.seq });
    }
    apply_lifecycle(record, table)
}

proof fn lemma_open_entries_len(s: Seq<TxnEntry>)
    ensures
        open_entries(s).len() <= s.len(),
    decreases s.len(),
{
    if s.len() > 0 {
        lemma_open_entries_len(s.drop_last());
    }
}

proof fn lemma_open_entries_prefix(s: Seq<TxnEntry>, j: int)
    requires
        0 <= j <= s.len(),
    ensures
        open_entries(s.take(j)).len() <= open_entries(s).len(),
    decreases s.len(),
{
    if j == s.len() {
        assert(s.take(j) =~= s);
    } else {
        assert(s.drop_last().take(j) =~= s.take(j));
        lemma_open_entries_prefix(s.drop_last(), j);
    }
}

fn make_repair(seq: u64, e: TxnEntry) -> (r: Record)
    ensures
        r == repair_record(seq, e),
{
    let mut record = Record {
        seq,
        kind: RecordKind::RepairTerminal,
        txn: Some(EffectId(e.txn)),
        epoch: TurnEpoch(e.epoch),
        payload: RecordPayload::RepairTerminal { cause: RepairTerminalCause::AbortedByCrash },
        checksum: Checksum(0),
    };
    let c = record.computed_checksum();
    record.checksum = c;
    record
}

fn reversed(outcomes: Vec<DecodeOutcome>) -> (r: Vec<DecodeOutcome>)
    ensures
        r@.len() == outcomes@.len(),
        forall|j: int| 0 <= j < r@.len() ==> #[trigger] r@[j] == outcomes@[outcomes@.len() - 1 - j],
{
    let ghost outs = outcomes@;
    let n = outcomes.len();
    let mut source = outcomes;
    let mut rev: Vec<DecodeOutcome> = Vec::new();
    while source.len() > 0
        invariant
            source@.len() + rev@.len() == n,
            n == outs.len(),
            forall|j: int| 0 <= j < source@.len() ==> source@[j] == outs[j],
            forall|j: int| 0 <= j < rev@.len() ==> #[trigger] rev@[j] == outs[n - 1 - j],
        decreases source@.len(),
    {
        let o = source.pop().unwrap();
        rev.push(o);
    }
    rev
}

fn accept_head(first: DecodeOutcome, supported_schema_epoch: u32) -> (r: Result<Record, ScanError>)
    ensures
        r == scan_head(seq![first], supported_schema_epoch),
{
    let first = match first {
        DecodeOutcome::Tail(fault) => {
            return Err(ScanError::HeaderUnavailable { fault });
        },
        DecodeOutcome::Good(record) => record,
    };
    let schema_epoch = match &first.payload {
        RecordPayload::Header(header) => {
            if first.kind != RecordKind::Header {
                return Err(ScanError::MissingHeader);
            }
            header.schema_epoch
        },
        _ => {
            return Err(ScanError::MissingHeader);
        },
    };
    if schema_epoch > supported_schema_epoch {
        return Err(
            ScanError::SchemaIncompatible { found: schema_epoch, supported: supported_schema_epoch },
        );
    }
    if first.checksum.0 != first.computed_checksum().0 {
        return Err(ScanError::HeaderUnavailable { fault: TailFault::ChecksumMismatch });
    }
    Ok(first)
}

proof fn lemma_scan_head_first(outs: Seq<DecodeOutcome>, supported: u32)
    requires
        outs.len() > 0,
    ensures
        scan_head(outs, supported) == scan_head(seq![outs[0]], supported),
{
}

/// Consumes the outcomes after the header (held in reverse), appending each
/// accepted record to `replayable`.
fn scan_rest(
    rev: &mut Vec<DecodeOutcome>,
    Ghost(outs): Ghost<Seq<DecodeOutcome>>,
    first_seq: u64,
    prefix: Vec<Record>,
) -> (r: Result<(u64, Vec<TxnEntry>, Option<TailFault>, Vec<Record>), ScanError>)
    requires
        1 <= outs.len() <= usize::MAX,
        old(rev)@.len() == outs.len() - 1,
        forall|j: int| 0 <= j < old(rev)@.len() ==> #[trigger] old(rev)@[j] == outs[outs.len() - 1 - j],
    ensures
        match scan_from(outs, 1, first_seq, Seq::empty()) {
            Ok((l, s, end, tail)) => match r {
                Ok((l2, t, tl, acc)) => l2 == l && t@ == s && tl == tail && acc@ == prefix@
                    + goods(outs, 1, end),
                Err(_) => false,
            },
            Err(e) => r == Err::<(u64, Vec<TxnEntry>, Option<TailFault>, Vec<Record>), ScanError>(e),
        },
{
    let ghost start = prefix@;
    let mut replayable = prefix;
    let n = rev.len() + 1;
    let mut last_seq = first_seq;
    let mut table: Vec<TxnEntry> = Vec::new();
    let mut i: usize = 1;
    assert(goods(outs, 1, 1) =~= Seq::<Record>::empty());
    assert(start + goods(outs, 1, 1) =~= start);
    loop
        invariant
            1 <= i <= n,
            rev@.len() == n - i,
            forall|j: int| 0 <= j < rev@.len() ==> #[trigger] rev@[j] == outs[n - 1 - j],
            scan_from(outs, 1, first_seq, Seq::empty()) == scan_from(outs, i as int, last_seq, table@),
            replayable@ == start + goods(outs, 1, i as int),
            start == prefix@,
            n == outs.len(),
        decreases n - i,
    {
        let outcome = match rev.pop() {
            None => {
                assert(i == n);
                assert(scan_from(outs, i as int, last_seq, table@) == Ok::<
                    (u64, Seq<TxnEntry>, int, Option<TailFault>),
                    ScanError,
                >((last_seq, table@, i as int, None)));
                return Ok((last_seq, table, None, replayable));
            },
            Some(o) => o,
        };
        assert(outcome == outs[i as int]);
        match outcome {
            DecodeOutcome::Tail(fault) => {
                if rev.len() > 0 {
                    return Err(ScanError::TailFaultNotLast { fault });
                }
                assert(scan_from(outs, i as int, last_seq, table@) == Ok::<
                    (u64, Seq<TxnEntry>, int, Option<TailFault>),
                    ScanError,
                >((last_seq, table@, i as int, Some(fault))));
                return Ok((last_seq, table, Some(fault), replayable));
            },
            DecodeOutcome::Good(record) => {
                match check_record(&record, last_seq, &mut table) {
                    Err(e) => {
                        return Err(e);
                    },
                    Ok(()) => {},
                }
                last_seq = record.seq;
                replayable.push(record);
                assert(goods(outs, 1, i + 1) =~= goods(outs, 1, i as int).push(record));
                i = i + 1;
            },
        }
    }
}

/// Appends the repair terminals for the still-open transactions to both
/// vectors.
fn push_repairs(
    table: &Vec<TxnEntry>,
    last_seq: u64,
    repairs: &mut Vec<Record>,
    replayable: &mut Vec<Record>,
) -> (r: Result<(), ScanError>)
    requires
        old(repairs)@.len() == 0,
    ensures
        last_seq + open_entries(table@).len() > u64::MAX ==> r == Err::<(), ScanError>(
            ScanError::SequenceExhausted,
        ),
        last_seq + open_entries(table@).len() <= u64::MAX ==> r is Ok && final(repairs)@
            == repairs_for(last_seq, table@) && final(replayable)@ == old(replayable)@
            + repairs_for(last_seq, table@),
{
    let ghost prefix = replayable@;
    let mut k: usize = 0;
    let mut seq = last_seq;
    let mut count: usize = 0;
    assert(table@.take(0) =~= Seq::<TxnEntry>::empty());
    assert(repairs@ =~= repairs_for(last_seq, table@.take(0)));
    assert(prefix + repairs@ =~= prefix);
    while k < table.len()
        invariant
            k <= table@.len(),
            count <= k,
            count == open_entries(table@.take(k as int)).len(),
            seq as int == last_seq + count,
            repairs@ == repairs_for(last_seq, table@.take(k as int)),
            replayable@ == prefix + repairs@,
        decreases table@.len() - k,
    {
        let e = table[k];
        assert(table@.take(k + 1).drop_last() =~= table@.take(k as int));
        if e.open {
            let next = match seq.checked_add(1) {
                None => {
                    proof {
                        lemma_open_entries_prefix(table@, k + 1);
                    }
                    return Err(ScanError::SequenceExhausted);
                },
                Some(next) => next,
            };
            seq = next;
            let repair = make_repair(seq, e);
            let copy = make_repair(seq, e);
            repairs.push(repair);
            replayable.push(copy);
            count = count + 1;
            assert(repairs@ =~= repairs_for(last_seq, table@.take(k + 1)));
        } else {
            assert(repairs@ =~= repairs_for(last_seq, table@.take(k + 1)));
        }
        k = k + 1;
    }
    assert(table@.take(k as int) =~= table@);
    Ok(())
}

/// Scans a decoded prefix, prepares crash terminals, and returns replay data.
///
/// The first outcome must be a header. Its `schema_epoch` comparison occurs
/// before checksum revalidation or any lifecycle processing, so an older
/// binary never prepares repairs for a newer schema. A final tail marker
/// after the header ends the accepted prefix without error; a marker
/// followed by another outcome is a structural refusal. Incomplete
/// transactions are repaired in the encounter order of their start records,
/// with contiguous sequence numbers after the last accepted record and the
/// start record's epoch and transaction id.
pub fn scan_records(outcomes: Vec<DecodeOutcome>, supported_schema_epoch: u32) -> (r: Result<
    ScanResult,
    ScanError,
>)
    ensures
        match scan_spec(outcomes@, supported_schema_epoch) {
            Ok((replayable, repairs, tail)) => match r {
                Ok(res) => res.replayable@ == replayable && res.repairs@ == repairs
                    && res.ignored_tail == tail,
                Err(_) => false,
            },
            Err(e) => r == Err::<ScanResult, ScanError>(e),
        },
{
    let ghost outs = outcomes@;
    let mut rev = reversed(outcomes);
    if rev.len() == 0 {
        return Err(ScanError::MissingHeader);
    }
    let first = match rev.pop() {
        None => {
            return Err(ScanError::MissingHeader);
        },
        Some(o) => o,
    };
    assert(first == outs[0]);
    proof {
        lemma_scan_head_first(outs, supported_schema_epoch);
    }
    let head = accept_head(first, supported_schema_epoch)?;
    let first_seq = head.seq;
    let mut prefix: Vec<Record> = Vec::new();
    prefix.push(head);
    let (last_seq, table, ignored_tail, mut replayable) = scan_rest(
        &mut rev,
        Ghost(outs),
        first_seq,
        prefix,
    )?;
    let mut repairs: Vec<Record> = Vec::new();
    push_repairs(&table, last_seq, &mut repairs, &mut replayable)?;
    Ok(ScanResult { repairs, replayable, ignored_tail })
}

} // verus!
