//! Codec-independent transcript records and pure startup scanning.
//!
//! The outer store codec is deliberately absent. A decoder validates its
//! framing and then supplies [`DecodeOutcome`] values; [`scan_records`]
//! checks the semantic record invariants and prepares the durable
//! crash-repair suffix.

pub mod canonical;
pub mod crc;
pub mod laws;
pub mod scan;

pub use crate::record::scan::{scan_records, DecodeOutcome, ScanError, ScanResult, TailFault};

use vstd::prelude::*;

use crate::protocol::config::SessionConfigPatch;
use crate::protocol::event::Event;
use crate::protocol::ids::{EffectId, SessionId, TurnEpoch};
use crate::protocol::op::Submission;
use crate::record::canonical::{
    enc_event, enc_patch, enc_submission, le_bytes, le_u64, push_byte, push_bytes, push_event,
    push_le, push_patch, push_sized, push_submission, sized, utf8,
};
use crate::record::crc::{crc32, crc32_of};
use crate::text::concat;

verus! {

/// The checksum algorithm used for records.
pub const CHECKSUM_ALGORITHM: &'static str = "CRC-32/ISO-HDLC";

/// A CRC-32/ISO-HDLC checksum stored on one record.
///
/// This detects accidental corruption; it is not a cryptographic
/// authentication mechanism. The covered logical byte sequence is, in
/// order: `seq` as eight little-endian bytes; the one-byte [`RecordKind`]
/// tag; one byte for `txn` (`0` absent, `1` present) followed by the effect
/// id as eight little-endian bytes when present; `epoch` as eight
/// little-endian bytes; and the canonical payload representation.
#[derive(Clone, Copy, Debug, PartialEq, Eq, Structural)]
pub struct Checksum(pub u32);

impl Default for Checksum {
    fn default() -> (r: Self)
        ensures
            r.0 == 0,
    {
        Checksum(0)
    }
}

impl Checksum {
    /// Computes CRC-32/ISO-HDLC over an arbitrary byte slice.
    pub fn of_bytes(bytes: &[u8]) -> (r: Self)
        ensures
            r.0 == crc32(bytes@),
    {
        Checksum(crc32_of(bytes))
    }
}

/// The typed payload class carried by a transcript record.
#[derive(Clone, Copy, Debug, PartialEq, Eq, Structural, PartialOrd, Ord, Hash)]
pub enum RecordKind {
    /// The log header.
    Header,
    /// A client operation accepted by the core.
    AcceptedOp,
    /// An emitted wire event.
    EmittedEvent,
    /// A driver effect outcome not otherwise represented by a wire event.
    EffectOutcome,
    /// An accepted, replayable session-configuration patch.
    ConfigPatch,
    /// The first record of a streamed transaction.
    StreamStarted,
    /// One progress record in a streamed transaction.
    StreamProgress,
    /// The sole ordinary terminal of a streamed transaction.
    StreamTerminal,
    /// An append-only rewind/elision marker.
    RewindMarker,
    /// A persisted terminal produced by startup crash repair.
    RepairTerminal,
}

/// The stable one-byte checksum tag of a kind.
pub open spec fn kind_tag(k: RecordKind) -> u8 {
    match k {
        RecordKind::Header => 0,
        RecordKind::AcceptedOp => 1,
        RecordKind::EmittedEvent => 2,
        RecordKind::EffectOutcome => 3,
        RecordKind::ConfigPatch => 4,
        RecordKind::StreamStarted => 5,
        RecordKind::StreamProgress => 6,
        RecordKind::StreamTerminal => 7,
        RecordKind::RewindMarker => 8,
        RecordKind::RepairTerminal => 9,
    }
}

impl RecordKind {
    fn checksum_tag(self) -> (r: u8)
        ensures
            r == kind_tag(self),
    {
        match self {
            RecordKind::Header => 0,
            RecordKind::AcceptedOp => 1,
            RecordKind::EmittedEvent => 2,
            RecordKind::EffectOutcome => 3,
            RecordKind::ConfigPatch => 4,
            RecordKind::StreamStarted => 5,
            RecordKind::StreamProgress => 6,
            RecordKind::StreamTerminal => 7,
            RecordKind::RewindMarker => 8,
            RecordKind::RepairTerminal => 9,
        }
    }

    /// The variant name.
    pub fn name(self) -> (r: &'static str)
        ensures
            r@ == kind_name(self),
    {
        match self {
            RecordKind::Header => "Header",
            RecordKind::AcceptedOp => "AcceptedOp",
            RecordKind::EmittedEvent => "EmittedEvent",
            RecordKind::EffectOutcome => "EffectOutcome",
            RecordKind::ConfigPatch => "ConfigPatch",
            RecordKind::StreamStarted => "StreamStarted",
            RecordKind::StreamProgress => "StreamProgress",
            RecordKind::StreamTerminal => "StreamTerminal",
            RecordKind::RewindMarker => "RewindMarker",
            RecordKind::RepairTerminal => "RepairTerminal",
        }
    }
}

/// The name of a record kind, as its variant is written.
pub open spec fn kind_name(k: RecordKind) -> Seq<char> {
    match k {
        RecordKind::Header => "Header"@,
        RecordKind::AcceptedOp => "AcceptedOp"@,
        RecordKind::EmittedEvent => "EmittedEvent"@,
        RecordKind::EffectOutcome => "EffectOutcome"@,
        RecordKind::ConfigPatch => "ConfigPatch"@,
        RecordKind::StreamStarted => "StreamStarted"@,
        RecordKind::StreamProgress => "StreamProgress"@,
        RecordKind::StreamTerminal => "StreamTerminal"@,
        RecordKind::RewindMarker => "RewindMarker"@,
        RecordKind::RepairTerminal => "RepairTerminal"@,
    }
}

/// The mandatory first record's payload.
#[derive(Debug, PartialEq, Eq)]
pub struct LogHeader {
    /// Identity of the session stored in this log.
    pub session_id: SessionId,
    /// Parent session for a future forked log, when one exists.
    pub parent: Option<SessionId>,
    /// Persisted-schema compatibility epoch.
    pub schema_epoch: u32,
    /// Prompt-pack semantic version as `major.minor.patch` integers.
    pub prompt_pack_version: [u16; 3],
    /// Text-verb grammar version as `major.minor.patch` integers.
    pub verb_grammar_version: [u16; 3],
    /// L3-search dialect version as `major.minor.patch` integers.
    pub l3_dialect_version: [u16; 3],
    /// Driver-declared outer record codec identifier.
    pub codec: String,
    /// Optional driver-claimed creation time, retained as an opaque string.
    pub created_at: Option<String>,
}

impl Clone for LogHeader {
    fn clone(&self) -> (res: Self)
        ensures
            res == *self,
    {
        LogHeader {
            session_id: self.session_id,
            parent: self.parent,
            schema_epoch: self.schema_epoch,
            prompt_pack_version: self.prompt_pack_version,
            verb_grammar_version: self.verb_grammar_version,
            l3_dialect_version: self.l3_dialect_version,
            codec: self.codec.clone(),
            created_at: match &self.created_at {
                Some(c) => Some(c.clone()),
                None => None,
            },
        }
    }
}

/// The only startup-repair terminal cause.
#[derive(Clone, Copy, Debug, PartialEq, Eq, Structural)]
pub enum RepairTerminalCause {
    /// The process stopped after `Started` but before an ordinary terminal.
    AbortedByCrash,
}

/// One typed record payload.
#[derive(Debug, PartialEq, Eq)]
pub enum RecordPayload {
    /// The log header.
    Header(LogHeader),
    /// An accepted client submission.
    AcceptedOp(Submission),
    /// An emitted protocol event.
    EmittedEvent(Event),
    /// Opaque effect-outcome data owned by the core/driver contract.
    EffectOutcome(Vec<u8>),
    /// An accepted session-configuration patch.
    ConfigPatch(SessionConfigPatch),
    /// Opaque metadata for a newly started stream.
    StreamStarted(Vec<u8>),
    /// Opaque bytes for one stream-progress item.
    StreamProgress(Vec<u8>),
    /// Opaque bytes for an ordinary stream terminal.
    StreamTerminal(Vec<u8>),
    /// Elide records strictly after the named sequence in the derived view.
    RewindMarker {
        /// Last sequence retained by the derived view.
        retain_through_seq: u64,
    },
    /// A durable terminal generated during startup repair.
    RepairTerminal {
        /// Why startup repair closed the transaction.
        cause: RepairTerminalCause,
    },
}

/// The record kind a payload variant requires.
pub open spec fn payload_kind(p: RecordPayload) -> RecordKind {
    match p {
        RecordPayload::Header(_) => RecordKind::Header,
        RecordPayload::AcceptedOp(_) => RecordKind::AcceptedOp,
        RecordPayload::EmittedEvent(_) => RecordKind::EmittedEvent,
        RecordPayload::EffectOutcome(_) => RecordKind::EffectOutcome,
        RecordPayload::ConfigPatch(_) => RecordKind::ConfigPatch,
        RecordPayload::StreamStarted(_) => RecordKind::StreamStarted,
        RecordPayload::StreamProgress(_) => RecordKind::StreamProgress,
        RecordPayload::StreamTerminal(_) => RecordKind::StreamTerminal,
        RecordPayload::RewindMarker { .. } => RecordKind::RewindMarker,
        RecordPayload::RepairTerminal { .. } => RecordKind::RepairTerminal,
    }
}

/// Three little-endian `u16` version components.
pub open spec fn enc_version(v: [u16; 3]) -> Seq<u8> {
    le_bytes(v@[0] as nat, 2) + le_bytes(v@[1] as nat, 2) + le_bytes(v@[2] as nat, 2)
}

/// Raw header encoding.
pub open spec fn enc_header(h: LogHeader) -> Seq<u8> {
    h.session_id.0@ + match h.parent {
        None => seq![0u8],
        Some(p) => seq![1u8] + p.0@,
    } + le_bytes(h.schema_epoch as nat, 4) + enc_version(h.prompt_pack_version) + enc_version(
        h.verb_grammar_version,
    ) + enc_version(h.l3_dialect_version) + sized(utf8(h.codec@)) + match h.created_at {
        None => seq![0u8],
        Some(c) => seq![1u8] + sized(utf8(c@)),
    }
}

/// Canonical payload encoding.
pub open spec fn enc_payload(p: RecordPayload) -> Seq<u8> {
    match p {
        RecordPayload::Header(h) => enc_header(h),
        RecordPayload::AcceptedOp(s) => enc_submission(s),
        RecordPayload::EmittedEvent(e) => enc_event(e),
        RecordPayload::EffectOutcome(b) => sized(b@),
        RecordPayload::ConfigPatch(p) => enc_patch(p),
        RecordPayload::StreamStarted(b) => sized(b@),
        RecordPayload::StreamProgress(b) => sized(b@),
        RecordPayload::StreamTerminal(b) => sized(b@),
        RecordPayload::RewindMarker { retain_through_seq } => le_u64(retain_through_seq),
        RecordPayload::RepairTerminal { .. } => seq![0u8],
    }
}

/// The transaction field's encoding.
pub open spec fn enc_txn(t: Option<EffectId>) -> Seq<u8> {
    match t {
        None => seq![0u8],
        Some(id) => seq![1u8] + le_u64(id.0),
    }
}

/// Every byte the checksum covers: `seq` through payload.
pub open spec fn coverage(r: Record) -> Seq<u8> {
    le_u64(r.seq) + seq![kind_tag(r.kind)] + enc_txn(r.txn) + le_u64(r.epoch.0) + enc_payload(
        r.payload,
    )
}

/// The checksum a record's fields call for.
pub open spec fn checksum_of(r: Record) -> u32 {
    crc32(coverage(r))
}

/// Kind, payload, and checksum agree.
pub open spec fn record_valid(r: Record) -> bool {
    r.kind == payload_kind(r.payload) && r.checksum.0 == checksum_of(r)
}

impl RecordPayload {
    /// Returns the record kind required for this payload variant.
    pub fn kind(&self) -> (r: RecordKind)
        ensures
            r == payload_kind(*self),
    {
        match self {
            RecordPayload::Header(_) => RecordKind::Header,
            RecordPayload::AcceptedOp(_) => RecordKind::AcceptedOp,
            RecordPayload::EmittedEvent(_) => RecordKind::EmittedEvent,
            RecordPayload::EffectOutcome(_) => RecordKind::EffectOutcome,
            RecordPayload::ConfigPatch(_) => RecordKind::ConfigPatch,
            RecordPayload::StreamStarted(_) => RecordKind::StreamStarted,
            RecordPayload::StreamProgress(_) => RecordKind::StreamProgress,
            RecordPayload::StreamTerminal(_) => RecordKind::StreamTerminal,
            RecordPayload::RewindMarker { .. } => RecordKind::RewindMarker,
            RecordPayload::RepairTerminal { .. } => RecordKind::RepairTerminal,
        }
    }

    fn checksum_write(&self, buf: &mut Vec<u8>)
        ensures
            final(buf)@ == old(buf)@ + enc_payload(*self),
    {
        match self {
            RecordPayload::Header(header) => write_header(buf, header),
            RecordPayload::AcceptedOp(submission) => push_submission(buf, submission),
            RecordPayload::EmittedEvent(event) => push_event(buf, event),
            RecordPayload::EffectOutcome(bytes) => push_sized(buf, bytes.as_slice()),
            RecordPayload::StreamStarted(bytes) => push_sized(buf, bytes.as_slice()),
            RecordPayload::StreamProgress(bytes) => push_sized(buf, bytes.as_slice()),
            RecordPayload::StreamTerminal(bytes) => push_sized(buf, bytes.as_slice()),
            RecordPayload::ConfigPatch(patch) => push_patch(buf, patch),
            RecordPayload::RewindMarker { retain_through_seq } => push_le(
                buf,
                *retain_through_seq,
                8,
            ),
            RecordPayload::RepairTerminal { .. } => push_byte(buf, 0),
        }
    }
}

fn write_version(buf: &mut Vec<u8>, v: &[u16; 3])
    ensures
        final(buf)@ == old(buf)@ + enc_version(*v),
{
    let ghost start = buf@;
    push_le(buf, v[0] as u64, 2);
    push_le(buf, v[1] as u64, 2);
    push_le(buf, v[2] as u64, 2);
    assert(buf@ =~= start + enc_version(*v));
}

fn write_header(buf: &mut Vec<u8>, header: &LogHeader)
    ensures
        final(buf)@ == old(buf)@ + enc_header(*header),
{
    let ghost start = buf@;
    push_bytes(buf, header.session_id.0.as_slice());
    match header.parent {
        None => push_byte(buf, 0),
        Some(parent) => {
            push_byte(buf, 1);
            push_bytes(buf, parent.0.as_slice());
        },
    }
    push_le(buf, header.schema_epoch as u64, 4);
    write_version(buf, &header.prompt_pack_version);
    write_version(buf, &header.verb_grammar_version);
    write_version(buf, &header.l3_dialect_version);
    push_sized(buf, header.codec.as_str().as_bytes());
    match &header.created_at {
        None => push_byte(buf, 0),
        Some(created_at) => {
            push_byte(buf, 1);
            push_sized(buf, created_at.as_str().as_bytes());
        },
    }
    assert(buf@ =~= start + enc_header(*header));
}

/// One immutable transcript-log record.
#[derive(Debug, PartialEq, Eq)]
pub struct Record {
    /// Strictly increasing log sequence number.
    pub seq: u64,
    /// Payload/lifecycle class.
    pub kind: RecordKind,
    /// Correlated streamed transaction, when applicable.
    pub txn: Option<EffectId>,
    /// Turn epoch that produced this record.
    pub epoch: TurnEpoch,
    /// Typed record payload.
    pub payload: RecordPayload,
    /// CRC over the declared `seq`-through-`payload` logical bytes.
    pub checksum: Checksum,
}

impl RecordPayload {
    /// Equal payloads, with byte vectors and nested values compared by
    /// content.
    pub open spec fn same_as(self, other: Self) -> bool {
        match (self, other) {
            (RecordPayload::Header(a), RecordPayload::Header(b)) => a == b,
            (RecordPayload::AcceptedOp(a), RecordPayload::AcceptedOp(b)) => a.same_as(b),
            (RecordPayload::EmittedEvent(a), RecordPayload::EmittedEvent(b)) => a == b,
            (RecordPayload::EffectOutcome(a), RecordPayload::EffectOutcome(b)) => a@ == b@,
            (RecordPayload::ConfigPatch(a), RecordPayload::ConfigPatch(b)) => a.same_as(b),
            (RecordPayload::StreamStarted(a), RecordPayload::StreamStarted(b)) => a@ == b@,
            (RecordPayload::StreamProgress(a), RecordPayload::StreamProgress(b)) => a@ == b@,
            (RecordPayload::StreamTerminal(a), RecordPayload::StreamTerminal(b)) => a@ == b@,
            (
                RecordPayload::RewindMarker { retain_through_seq: a },
                RecordPayload::RewindMarker { retain_through_seq: b },
            ) => a == b,
            (RecordPayload::RepairTerminal { cause: a }, RecordPayload::RepairTerminal { cause: b }) =>
                a == b,
            _ => false,
        }
    }
}

fn clone_bytes(v: &Vec<u8>) -> (r: Vec<u8>)
    ensures
        r@ == v@,
{
    let r = v.clone();
    assert(r@ =~= v@);
    r
}

impl Clone for RecordPayload {
    fn clone(&self) -> (res: Self)
        ensures
            res.same_as(*self),
    {
        match self {
            RecordPayload::Header(h) => RecordPayload::Header(h.clone()),
            RecordPayload::AcceptedOp(s) => RecordPayload::AcceptedOp(s.clone()),
            RecordPayload::EmittedEvent(e) => RecordPayload::EmittedEvent(e.clone()),
            RecordPayload::EffectOutcome(b) => RecordPayload::EffectOutcome(clone_bytes(b)),
            RecordPayload::ConfigPatch(p) => RecordPayload::ConfigPatch(p.clone()),
            RecordPayload::StreamStarted(b) => RecordPayload::StreamStarted(clone_bytes(b)),
            RecordPayload::StreamProgress(b) => RecordPayload::StreamProgress(clone_bytes(b)),
            RecordPayload::StreamTerminal(b) => RecordPayload::StreamTerminal(clone_bytes(b)),
            RecordPayload::RewindMarker { retain_through_seq } => RecordPayload::RewindMarker {
                retain_through_seq: *retain_through_seq,
            },
            RecordPayload::RepairTerminal { cause } => RecordPayload::RepairTerminal { cause: *cause },
        }
    }
}

impl Record {
    /// Equal records, with payloads compared by content.
    pub open spec fn same_as(self, other: Self) -> bool {
        &&& self.seq == other.seq
        &&& self.kind == other.kind
        &&& self.txn == other.txn
        &&& self.epoch == other.epoch
        &&& self.payload.same_as(other.payload)
        &&& self.checksum == other.checksum
    }
}

impl Clone for Record {
    fn clone(&self) -> (res: Self)
        ensures
            res.same_as(*self),
    {
        Record {
            seq: self.seq,
            kind: self.kind,
            txn: self.txn,
            epoch: self.epoch,
            payload: self.payload.clone(),
            checksum: self.checksum,
        }
    }
}

/// Why a record could not be constructed.
#[derive(Clone, Copy, Debug, PartialEq, Eq, Structural)]
pub enum RecordBuildError {
    /// The explicit discriminator did not agree with the payload variant.
    KindPayloadMismatch {
        /// Explicit record discriminator.
        kind: RecordKind,
        /// Discriminator required by the payload.
        payload_kind: RecordKind,
    },
}

impl RecordBuildError {
    /// Human-readable description.
    pub fn describe(&self) -> (r: String)
        ensures
            r@ == build_error_text(*self),
    {
        match self {
            RecordBuildError::KindPayloadMismatch { kind, payload_kind } => {
                let mut s = concat("record kind ", kind.name());
                s.append(" does not match payload kind ");
                s.append(payload_kind.name());
                s
            },
        }
    }
}

/// The description of a build error.
pub open spec fn build_error_text(e: RecordBuildError) -> Seq<char> {
    match e {
        RecordBuildError::KindPayloadMismatch { kind, payload_kind } => "record kind "@ + kind_name(
            kind,
        ) + " does not match payload kind "@ + kind_name(payload_kind),
    }
}

/// A record with its checksum field set to what its other fields call for.
pub open spec fn sealed(r: Record) -> Record {
    Record { checksum: Checksum(checksum_of(r)), ..r }
}

impl Record {
    /// Constructs a kind-consistent record and computes its checksum.
    ///
    /// This constructor does not impose lifecycle rules; [`scan_records`]
    /// checks transaction ordering across records.
    pub fn new(
        seq: u64,
        kind: RecordKind,
        txn: Option<EffectId>,
        epoch: TurnEpoch,
        payload: RecordPayload,
    ) -> (r: Result<Self, RecordBuildError>)
        ensures
            match r {
                Ok(rec) => {
                    &&& kind == payload_kind(payload)
                    &&& rec.seq == seq
                    &&& rec.kind == kind
                    &&& rec.txn == txn
                    &&& rec.epoch == epoch
                    &&& rec.payload == payload
                    &&& rec.checksum.0 == checksum_of(rec)
                },
                Err(e) => kind != payload_kind(payload) && e == RecordBuildError::KindPayloadMismatch {
                    kind,
                    payload_kind: payload_kind(payload),
                },
            },
    {
        let payload_kind = payload.kind();
        if kind != payload_kind {
            return Err(RecordBuildError::KindPayloadMismatch { kind, payload_kind });
        }
        let mut record = Record { seq, kind, txn, epoch, payload, checksum: Checksum(0) };
        let c = record.computed_checksum();
        record.checksum = c;
        Ok(record)
    }

    /// Recomputes the checksum using the declared logical byte canon.
    pub fn computed_checksum(&self) -> (r: Checksum)
        ensures
            r.0 == checksum_of(*self),
    {
        let mut buf: Vec<u8> = Vec::new();
        push_le(&mut buf, self.seq, 8);
        push_byte(&mut buf, self.kind.checksum_tag());
        match self.txn {
            None => push_byte(&mut buf, 0),
            Some(id) => {
                push_byte(&mut buf, 1);
                push_le(&mut buf, id.0, 8);
            },
        }
        push_le(&mut buf, self.epoch.0, 8);
        self.payload.checksum_write(&mut buf);
        assert(buf@ =~= coverage(*self));
        Checksum(crc32_of(buf.as_slice()))
    }

    /// Returns whether kind, payload, and checksum agree.
    pub fn is_valid(&self) -> (r: bool)
        ensures
            r == record_valid(*self),
    {
        self.kind == self.payload.kind() && self.checksum.0 == self.computed_checksum().0
    }
}

} // verus!
