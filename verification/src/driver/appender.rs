//! The rules of the transcript appender: which fresh header a new log may
//! start with, how an existing log's lines become the replay plan (scan,
//! physical truncation of a tolerated tail, crash repairs, next sequence),
//! and the strict sequence order of appends.

use vstd::prelude::*;

use crate::record::scan::scan_spec;
use crate::record::{
    record_valid, scan_records, DecodeOutcome, Record, RecordKind, RecordPayload, ScanError,
    ScanResult, TailFault,
};

verus! {

/// The persisted-schema epoch this binary supports.
pub const SUPPORTED_SCHEMA_EPOCH: u32 = 0;

/// The codec identifier written into log headers by this driver.
pub const CODEC: &'static str = "jsonl-v1";

/// The standard library's I/O error, carried through unexamined.
#[verifier::external_type_specification]
#[verifier::external_body]
pub struct ExIoError(std::io::Error);

/// Why a log could not be opened.
#[derive(Debug)]
pub enum OpenError {
    /// Another live appender owns the sidecar writer lock.
    WriterLocked,
    /// Filesystem failure.
    Io(std::io::Error),
    /// The scan refused the log (incompatible epoch, structural damage).
    Scan(ScanError),
    /// A repair record could not be written durably.
    RepairAppend(std::io::Error),
    /// A fresh log was requested with no valid header record.
    BadFreshHeader,
    /// The persisted log already used the largest sequence number.
    SequenceExhausted,
}

impl From<std::io::Error> for OpenError {
    fn from(e: std::io::Error) -> (r: Self) {
        OpenError::Io(e)
    }
}

impl vstd::std_specs::convert::FromSpecImpl<std::io::Error> for OpenError {
    open spec fn obeys_from_spec() -> bool {
        true
    }

    open spec fn from_spec(e: std::io::Error) -> Self {
        OpenError::Io(e)
    }
}

/// The schema epoch a header record declares; `None` for any other payload.
pub open spec fn declared_epoch(r: Record) -> Option<u32> {
    match r.payload {
        RecordPayload::Header(h) => Some(h.schema_epoch),
        _ => None,
    }
}

/// The schema epoch of a header record, or `None` if it is not a header
/// payload.
pub fn header_schema_epoch(record: &Record) -> (r: Option<u32>)
    ensures
        r == declared_epoch(*record),
{
    match &record.payload {
        RecordPayload::Header(h) => Some(h.schema_epoch),
        _ => None,
    }
}

/// A fresh log may start with this header: valid, at sequence zero, of the
/// header kind, and of a supported schema epoch.
pub open spec fn acceptable_fresh_header(h: Record) -> bool {
    &&& record_valid(h)
    &&& h.seq == 0
    &&& h.kind == RecordKind::Header
    &&& declared_epoch(h) matches Some(e) && e <= SUPPORTED_SCHEMA_EPOCH
}

/// Whether a fresh log may start with `header`.
pub fn fresh_header_acceptable(header: &Record) -> (r: bool)
    ensures
        r == acceptable_fresh_header(*header),
{
    if !header.is_valid() || header.seq != 0 {
        return false;
    }
    match header.kind {
        RecordKind::Header => {},
        _ => {
            return false;
        },
    }
    match header_schema_epoch(header) {
        Some(e) => e <= SUPPORTED_SCHEMA_EPOCH,
        None => false,
    }
}

/// One line of an existing log, as the decoder read it.
#[derive(Debug, PartialEq, Eq)]
pub enum LogLine {
    /// A line holding only whitespace; its length in bytes, newline excluded.
    Blank(u64),
    /// A decoded line; its length in bytes, newline excluded.
    Decoded(DecodeOutcome, u64),
}

/// The length of a line, newline excluded.
pub open spec fn line_len(l: LogLine) -> nat {
    match l {
        LogLine::Blank(n) => n as nat,
        LogLine::Decoded(_, n) => n as nat,
    }
}

/// Bytes taken by lines `..k`, each counted with its newline.
pub open spec fn bytes_through(ls: Seq<LogLine>, k: int) -> nat
    decreases k,
{
    if k <= 0 {
        0
    } else {
        bytes_through(ls, k - 1) + line_len(ls[k - 1]) + 1
    }
}

/// Where the valid prefix of lines `..k` ends: after the last blank or good
/// line.
pub open spec fn valid_end(ls: Seq<LogLine>, k: int) -> nat
    decreases k,
{
    if k <= 0 {
        0
    } else {
        match ls[k - 1] {
            LogLine::Blank(_) => bytes_through(ls, k),
            LogLine::Decoded(DecodeOutcome::Good(_), _) => bytes_through(ls, k),
            _ => valid_end(ls, k - 1),
        }
    }
}

/// The decode outcomes of lines `..k`, blank lines skipped.
pub open spec fn outcomes_through(ls: Seq<LogLine>, k: int) -> Seq<DecodeOutcome>
    decreases k,
{
    if k <= 0 {
        Seq::empty()
    } else {
        match ls[k - 1] {
            LogLine::Blank(_) => outcomes_through(ls, k - 1),
            LogLine::Decoded(o, _) => outcomes_through(ls, k - 1).push(o),
        }
    }
}

/// What opening an existing log does before replay.
#[derive(Debug)]
pub struct OpenPlan {
    /// Truncate the file to this many bytes first, dropping a tolerated
    /// damaged tail so later appends never land after bad bytes.
    pub truncate_to: Option<u64>,
    /// Crash-repair records to append, durably, before replay.
    pub repairs: Vec<Record>,
    /// Records to replay: the valid prefix followed by the repairs.
    pub replayable: Vec<Record>,
    /// The next sequence number the engine must use.
    pub next_seq: u64,
    /// The durability watermark.
    pub persisted: u64,
}

/// Plans the opening of an existing log from its lines: scan the decoded
/// outcomes, truncate to the end of the valid prefix if a tail fault was
/// tolerated, repair open transactions, and continue after the last
/// replayable record.
pub fn plan_open(lines: Vec<LogLine>) -> (r: Result<OpenPlan, OpenError>)
    requires
        bytes_through(lines@, lines@.len() as int) <= u64::MAX,
    ensures
        match scan_spec(outcomes_through(lines@, lines@.len() as int), SUPPORTED_SCHEMA_EPOCH) {
            Err(e) => r matches Err(OpenError::Scan(x)) && x == e,
            Ok((replayable, repairs, tail)) => {
                let total = bytes_through(lines@, lines@.len() as int);
                let end = valid_end(lines@, lines@.len() as int);
                if replayable.len() > 0 && replayable.last().seq == u64::MAX {
                    r matches Err(OpenError::SequenceExhausted)
                } else {
                    r matches Ok(plan) && plan.replayable@ == replayable && plan.repairs@
                        == repairs && plan.truncate_to == (if tail is Some && end < total {
                        Some(end as u64)
                    } else {
                        None
                    }) && plan.next_seq == (if replayable.len() > 0 {
                        replayable.last().seq + 1
                    } else {
                        0
                    }) && plan.persisted == (if plan.next_seq > 0 {
                        plan.next_seq - 1
                    } else {
                        0
                    })
                }
            },
        },
{
    let ghost ls = lines@;
    let n = lines.len();
    let mut outcomes: Vec<DecodeOutcome> = Vec::new();
    let mut offset: u64 = 0;
    let mut end: u64 = 0;
    let mut rest = lines;
    let mut back: Vec<LogLine> = Vec::new();
    while rest.len() > 0
        invariant
            rest@.len() + back@.len() == ls.len(),
            rest@ == ls.take(rest@.len() as int),
            forall|j: int| 0 <= j < back@.len() ==> back@[j] == ls[ls.len() - 1 - j],
        decreases rest@.len(),
    {
        let line = rest.pop().unwrap();
        assert(rest@ =~= ls.take(rest@.len() as int));
        back.push(line);
    }
    let mut k: usize = 0;
    while back.len() > 0
        invariant
            n == ls.len(),
            k + back@.len() == n,
            forall|j: int| 0 <= j < back@.len() ==> back@[j] == ls[n - 1 - j],
            bytes_through(ls, n as int) <= u64::MAX,
            offset == bytes_through(ls, k as int),
            end == valid_end(ls, k as int),
            outcomes@ == outcomes_through(ls, k as int),
        decreases back@.len(),
    {
        let line = back.pop().unwrap();
        assert(line == ls[k as int]);
        proof {
            lemma_bytes_monotone(ls, k + 1, n as int);
        }
        match line {
            LogLine::Blank(len) => {
                offset = offset + len + 1;
                end = offset;
            },
            LogLine::Decoded(outcome, len) => {
                offset = offset + len + 1;
                match &outcome {
                    DecodeOutcome::Good(_) => {
                        end = offset;
                    },
                    DecodeOutcome::Tail(_) => {},
                }
                outcomes.push(outcome);
            },
        }
        k = k + 1;
    }
    let scanned = match scan_records(outcomes, SUPPORTED_SCHEMA_EPOCH) {
        Ok(s) => s,
        Err(e) => {
            return Err(OpenError::Scan(e));
        },
    };
    let ScanResult { repairs, replayable, ignored_tail } = scanned;
    let truncate_to = if ignored_tail.is_some() && end < offset {
        Some(end)
    } else {
        None
    };
    let next_seq = if replayable.len() > 0 {
        let last = replayable[replayable.len() - 1].seq;
        if last == u64::MAX {
            return Err(OpenError::SequenceExhausted);
        }
        last + 1
    } else {
        0
    };
    let persisted = if next_seq > 0 {
        next_seq - 1
    } else {
        0
    };
    Ok(OpenPlan { truncate_to, repairs, replayable, next_seq, persisted })
}

proof fn lemma_bytes_monotone(ls: Seq<LogLine>, a: int, b: int)
    requires
        a <= b,
    ensures
        bytes_through(ls, a) <= bytes_through(ls, b),
    decreases b - a,
{
    if a < b {
        lemma_bytes_monotone(ls, a, b - 1);
    }
}

/// Why a record was refused by an append.
#[derive(Clone, Copy, Debug, PartialEq, Eq, Structural)]
pub enum AppendRefusal {
    /// The record's sequence is not the next one.
    OutOfSequence,
    /// The record used the largest sequence number.
    SequenceExhausted,
}

/// The next sequence after appending a record numbered `seq` when `next`
/// was expected, or why the record is refused.
pub fn next_after(next: u64, seq: u64) -> (r: Result<u64, AppendRefusal>)
    ensures
        seq != next ==> r == Err::<u64, AppendRefusal>(AppendRefusal::OutOfSequence),
        seq == next && seq == u64::MAX ==> r == Err::<u64, AppendRefusal>(
            AppendRefusal::SequenceExhausted,
        ),
        seq == next && seq < u64::MAX ==> r == Ok::<u64, AppendRefusal>((seq + 1) as u64),
{
    if seq != next {
        Err(AppendRefusal::OutOfSequence)
    } else if seq == u64::MAX {
        Err(AppendRefusal::SequenceExhausted)
    } else {
        Ok(seq + 1)
    }
}

/// The description of an append refusal.
pub fn refusal_text(r: AppendRefusal) -> (s: &'static str)
    ensures
        r == AppendRefusal::OutOfSequence ==> s@ == "append out of sequence"@,
        r == AppendRefusal::SequenceExhausted ==> s@ == "sequence namespace exhausted"@,
{
    match r {
        AppendRefusal::OutOfSequence => "append out of sequence",
        AppendRefusal::SequenceExhausted => "sequence namespace exhausted",
    }
}

} // verus!
