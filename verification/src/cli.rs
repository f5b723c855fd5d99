//! The headless front end's pure part: the header that starts a fresh
//! session log.

use vstd::prelude::*;

use crate::driver::appender::{acceptable_fresh_header, CODEC, SUPPORTED_SCHEMA_EPOCH};
use crate::prompts::prompt_pack_version;
use crate::protocol::ids::{SessionId, TurnEpoch};
use crate::record::{record_valid, LogHeader, Record, RecordBuildError, RecordKind, RecordPayload};
use crate::text::string_of;

verus! {

/// Builds the mandatory first record for a fresh session log: sequence
/// zero, no parent, the supported schema epoch, the linked prompt-pack,
/// verb-grammar, and dialect versions, and this driver's codec.
pub fn fresh_header(session_id: SessionId) -> (r: Result<Record, RecordBuildError>)
    ensures
        r matches Ok(rec) && rec.seq == 0 && rec.kind == RecordKind::Header && rec.txn is None
            && rec.epoch == TurnEpoch(0) && record_valid(rec) && (rec.payload matches RecordPayload::Header(
            h,
        ) && h.session_id == session_id && h.parent is None && h.schema_epoch
            == SUPPORTED_SCHEMA_EPOCH && h.prompt_pack_version@ == seq![0u16, 1, 0]
            && h.verb_grammar_version@ == seq![1u16, 0, 0] && h.l3_dialect_version@ == seq![
            1u16,
            0,
            0,
        ] && h.codec@ == CODEC@ && h.created_at is None),
        r matches Ok(rec) && acceptable_fresh_header(rec),
{
    let header = LogHeader {
        session_id,
        parent: None,
        schema_epoch: SUPPORTED_SCHEMA_EPOCH,
        prompt_pack_version: prompt_pack_version().0,
        verb_grammar_version: [1, 0, 0],
        l3_dialect_version: [1, 0, 0],
        codec: string_of(CODEC),
        created_at: None,
    };
    assert(header.verb_grammar_version@ =~= seq![1u16, 0, 0]);
    assert(header.l3_dialect_version@ =~= seq![1u16, 0, 0]);
    Record::new(0, RecordKind::Header, None, TurnEpoch(0), RecordPayload::Header(header))
}

} // verus!
