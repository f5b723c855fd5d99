//! The canonical byte coverage of record checksums.
//!
//! Header scalars use little-endian integers, option tags, and `u64`
//! little-endian byte lengths before UTF-8 strings; opaque payloads use a
//! `u64` length followed by every byte. Published protocol values use a
//! deterministic token encoding: each scalar has a distinct one-byte type
//! tag; strings and byte sequences carry a `u64` length; options carry a
//! variant tag; enum variants carry their `u32` declaration index; compound
//! values carry their declared length and an end marker. Struct fields are
//! visited in declaration order and maps in ascending key order. Tagged
//! enums open a structure whose first field is the snake-case variant name.

use vstd::prelude::*;
use vstd::utf8::*;

use crate::protocol::budgets::{BudgetKind, Budgets};
use crate::protocol::config::{
    CompactionThresholds, QueueBounds, SessionConfigPatch, StationarityThresholds,
};
use crate::protocol::error::{ErrorClass, ErrorCode, ErrorEvent, VerbErrorCause};
use crate::protocol::event::{Event, ToolOutcome, TurnEnd};
use crate::protocol::op::{Op, Submission};
use crate::protocol::ordered_map::OrderedMap;
use crate::protocol::policy::{ApprovalPolicy, ApprovalVerdict, SandboxPolicy};

verus! {

// ---------------------------------------------------------------------------
// Primitive encodings
// ---------------------------------------------------------------------------

/// The `n` low-order bytes of `v`, least significant first.
pub open spec fn le_bytes(v: nat, n: nat) -> Seq<u8>
    decreases n,
{
    if n == 0 {
        Seq::empty()
    } else {
        seq![(v % 256) as u8] + le_bytes(v / 256, (n - 1) as nat)
    }
}

/// Eight little-endian bytes.
pub open spec fn le_u64(v: u64) -> Seq<u8> {
    le_bytes(v as nat, 8)
}

/// A `u64` little-endian length followed by the bytes.
pub open spec fn sized(b: Seq<u8>) -> Seq<u8> {
    le_bytes(b.len(), 8) + b
}

/// The UTF-8 bytes of a character sequence.
pub open spec fn utf8(s: Seq<char>) -> Seq<u8> {
    encode_utf8(s)
}

/// String token.
pub open spec fn tok_str(s: Seq<char>) -> Seq<u8> {
    seq![0x0fu8] + sized(utf8(s))
}

/// `u8` token.
pub open spec fn tok_u8(v: u8) -> Seq<u8> {
    seq![0x07u8, v]
}

/// `u16` token.
pub open spec fn tok_u16(v: u16) -> Seq<u8> {
    seq![0x08u8] + le_bytes(v as nat, 2)
}

/// `u32` token.
pub open spec fn tok_u32(v: u32) -> Seq<u8> {
    seq![0x09u8] + le_bytes(v as nat, 4)
}

/// `u64` token.
pub open spec fn tok_u64(v: u64) -> Seq<u8> {
    seq![0x0au8] + le_bytes(v as nat, 8)
}

/// Boolean token.
pub open spec fn tok_bool(v: bool) -> Seq<u8> {
    seq![if v { 1u8 } else { 0u8 }]
}

/// Absent option token.
pub open spec fn tok_none() -> Seq<u8> {
    seq![0x11u8]
}

/// Present option token around its content.
pub open spec fn tok_some(inner: Seq<u8>) -> Seq<u8> {
    seq![0x12u8] + inner
}

/// Unit enum variant token with its declaration index.
pub open spec fn tok_variant(index: u32) -> Seq<u8> {
    seq![0x15u8] + le_bytes(index as nat, 4)
}

/// Newtype wrapper around a `u64` identity.
pub open spec fn tok_id(v: u64) -> Seq<u8> {
    seq![0x16u8] + tok_u64(v)
}

/// Opening of a structure with `len` fields.
pub open spec fn open_struct(len: nat) -> Seq<u8> {
    seq![0x1du8] + le_bytes(len, 8)
}

/// Opening of a sequence of known length.
pub open spec fn open_seq(len: nat) -> Seq<u8> {
    seq![0x18u8, 1u8] + le_bytes(len, 8)
}

/// Opening of a map of known length.
pub open spec fn open_map(len: nat) -> Seq<u8> {
    seq![0x1cu8, 1u8] + le_bytes(len, 8)
}

/// End marker of a compound value.
pub open spec fn end_mark() -> Seq<u8> {
    seq![0xffu8]
}

// ---------------------------------------------------------------------------
// Protocol values
// ---------------------------------------------------------------------------

/// Declaration index of a budget kind.
pub open spec fn budget_kind_index(k: BudgetKind) -> u32 {
    match k {
        BudgetKind::VerbOutput => 0,
        BudgetKind::ToolResult => 1,
        BudgetKind::AskDigest => 2,
        BudgetKind::VerbCount => 3,
        BudgetKind::RecursionDepth => 4,
        BudgetKind::TotalSubcalls => 5,
        BudgetKind::ParallelSubcalls => 6,
        BudgetKind::PartitionCount => 7,
        BudgetKind::SelectedBytes => 8,
        BudgetKind::ScannedPages => 9,
        BudgetKind::ScannedBytes => 10,
        BudgetKind::PageEffects => 11,
        BudgetKind::SuspendedQueries => 12,
        BudgetKind::ContinuationMemory => 13,
        BudgetKind::AskWallClock => 14,
        BudgetKind::AskTokens => 15,
        BudgetKind::TurnTokens => 16,
    }
}

/// Declaration index of an approval policy.
pub open spec fn approval_policy_index(p: ApprovalPolicy) -> u32 {
    match p {
        ApprovalPolicy::Auto => 0,
        ApprovalPolicy::Ask => 1,
        ApprovalPolicy::Deny => 2,
    }
}

/// Declaration index of an approval verdict.
pub open spec fn verdict_index(v: ApprovalVerdict) -> u32 {
    match v {
        ApprovalVerdict::Approve => 0,
        ApprovalVerdict::Deny => 1,
    }
}

/// Declaration index of an error class.
pub open spec fn error_class_index(c: ErrorClass) -> u32 {
    match c {
        ErrorClass::Retryable => 0,
        ErrorClass::Fatal => 1,
        ErrorClass::UserActionable => 2,
    }
}

/// Declaration index of a verb error cause.
pub open spec fn verb_cause_index(c: VerbErrorCause) -> u32 {
    match c {
        VerbErrorCause::BadRef => 0,
        VerbErrorCause::BadRange => 1,
        VerbErrorCause::BadFlag => 2,
        VerbErrorCause::Parse => 3,
        VerbErrorCause::Budget => 4,
    }
}

/// Declaration index of a turn end.
pub open spec fn turn_end_index(t: TurnEnd) -> u32 {
    match t {
        TurnEnd::Completed => 0,
        TurnEnd::Interrupted => 1,
        TurnEnd::Failed => 2,
    }
}

/// Encoding of a budget set.
pub open spec fn enc_budgets(b: Budgets) -> Seq<u8> {
    open_struct(16) + tok_u32(b.verb_output_bytes) + tok_u32(b.tool_result_bytes) + tok_u32(
        b.ask_digest_bytes,
    ) + tok_u16(b.verb_count) + tok_u8(b.recursion_depth) + tok_u16(b.total_subcalls) + tok_u8(
        b.parallel_subcalls,
    ) + tok_u16(b.partition_count) + tok_u32(b.selected_bytes) + tok_u32(b.scanned_pages)
        + tok_u64(b.scanned_bytes) + tok_u32(b.page_effects) + tok_u8(b.suspended_queries)
        + tok_u32(b.continuation_memory_bytes) + tok_u32(b.ask_wall_clock_ms) + tok_u32(
        b.ask_tokens,
    ) + end_mark()
}

/// Encoding of compaction thresholds.
pub open spec fn enc_compaction(c: CompactionThresholds) -> Seq<u8> {
    open_struct(2) + tok_u8(c.prefire_percent) + tok_u8(c.hard_percent) + end_mark()
}

/// Encoding of stationarity thresholds.
pub open spec fn enc_stationarity(s: StationarityThresholds) -> Seq<u8> {
    open_struct(2) + tok_u16(s.identical_calls) + tok_u16(s.identical_noops) + end_mark()
}

/// Encoding of queue bounds.
pub open spec fn enc_queues(q: QueueBounds) -> Seq<u8> {
    open_struct(4) + tok_u16(q.model_deltas) + tok_u16(q.effect_progress) + tok_u16(
        q.interjections,
    ) + tok_u16(q.max_active_effects) + end_mark()
}

/// The entries of a string-to-string map, in order.
pub open spec fn enc_string_entries(s: Seq<(Seq<char>, String)>) -> Seq<u8>
    decreases s.len(),
{
    if s.len() == 0 {
        Seq::empty()
    } else {
        enc_string_entries(s.drop_last()) + tok_str(s.last().0) + tok_str(s.last().1@)
    }
}

/// The entries of a string-to-policy map, in order.
pub open spec fn enc_policy_entries(s: Seq<(Seq<char>, ApprovalPolicy)>) -> Seq<u8>
    decreases s.len(),
{
    if s.len() == 0 {
        Seq::empty()
    } else {
        enc_policy_entries(s.drop_last()) + tok_str(s.last().0) + tok_variant(
            approval_policy_index(s.last().1),
        )
    }
}

/// A sequence of strings, element by element.
pub open spec fn enc_str_elems(s: Seq<String>) -> Seq<u8>
    decreases s.len(),
{
    if s.len() == 0 {
        Seq::empty()
    } else {
        enc_str_elems(s.drop_last()) + tok_str(s.last()@)
    }
}

/// Encoding of a sandbox policy.
pub open spec fn enc_sandbox(p: SandboxPolicy) -> Seq<u8> {
    match p {
        SandboxPolicy::DangerFullAccess => open_struct(1) + tok_str("danger_full_access"@)
            + end_mark(),
        SandboxPolicy::ReadOnly => open_struct(1) + tok_str("read_only"@) + end_mark(),
        SandboxPolicy::WorkspaceWrite { writable_roots } => open_struct(2) + tok_str(
            "workspace_write"@,
        ) + open_seq(writable_roots@.len()) + enc_str_elems(writable_roots@) + end_mark()
            + end_mark(),
    }
}

/// Encoding of a string-to-string map.
pub open spec fn enc_string_map(m: OrderedMap<String>) -> Seq<u8> {
    open_map(m@.len()) + enc_string_entries(m@) + end_mark()
}

/// Encoding of a string-to-policy map.
pub open spec fn enc_policy_map(m: OrderedMap<ApprovalPolicy>) -> Seq<u8> {
    open_map(m@.len()) + enc_policy_entries(m@) + end_mark()
}

/// Encoding of a string.
pub open spec fn enc_string(s: String) -> Seq<u8> {
    tok_str(s@)
}

/// Encoding of the optional `compaction` leaf of a patch.
pub open spec fn enc_opt_compaction(o: Option<CompactionThresholds>) -> Seq<u8> {
    match o {
        Some(v) => tok_some(enc_compaction(v)),
        None => tok_none(),
    }
}

/// Encoding of the optional `stationarity` leaf of a patch.
pub open spec fn enc_opt_stationarity(o: Option<StationarityThresholds>) -> Seq<u8> {
    match o {
        Some(v) => tok_some(enc_stationarity(v)),
        None => tok_none(),
    }
}

/// Encoding of the optional `budgets` leaf of a patch.
pub open spec fn enc_opt_budgets(o: Option<Budgets>) -> Seq<u8> {
    match o {
        Some(v) => tok_some(enc_budgets(v)),
        None => tok_none(),
    }
}

/// Encoding of the optional `queues` leaf of a patch.
pub open spec fn enc_opt_queues(o: Option<QueueBounds>) -> Seq<u8> {
    match o {
        Some(v) => tok_some(enc_queues(v)),
        None => tok_none(),
    }
}

/// Encoding of the optional `prompt_overrides` leaf of a patch.
pub open spec fn enc_opt_prompt_overrides(o: Option<OrderedMap<String>>) -> Seq<u8> {
    match o {
        Some(v) => tok_some(enc_string_map(v)),
        None => tok_none(),
    }
}

/// Encoding of the optional `model_root` leaf of a patch.
pub open spec fn enc_opt_model_root(o: Option<String>) -> Seq<u8> {
    match o {
        Some(v) => tok_some(enc_string(v)),
        None => tok_none(),
    }
}

/// Encoding of the optional `model_sub` leaf of a patch.
pub open spec fn enc_opt_model_sub(o: Option<String>) -> Seq<u8> {
    match o {
        Some(v) => tok_some(enc_string(v)),
        None => tok_none(),
    }
}

/// Encoding of the optional `approval_defaults` leaf of a patch.
pub open spec fn enc_opt_approval_defaults(o: Option<OrderedMap<ApprovalPolicy>>) -> Seq<u8> {
    match o {
        Some(v) => tok_some(enc_policy_map(v)),
        None => tok_none(),
    }
}

/// Encoding of the optional `sandbox_default` leaf of a patch.
pub open spec fn enc_opt_sandbox_default(o: Option<SandboxPolicy>) -> Seq<u8> {
    match o {
        Some(v) => tok_some(enc_sandbox(v)),
        None => tok_none(),
    }
}

/// Encoding of a configuration patch.
pub open spec fn enc_patch(p: SessionConfigPatch) -> Seq<u8> {
    open_struct(9) + enc_opt_compaction(p.compaction) + enc_opt_stationarity(p.stationarity)
        + enc_opt_budgets(p.budgets) + enc_opt_queues(p.queues) + enc_opt_prompt_overrides(
        p.prompt_overrides,
    ) + enc_opt_model_root(p.model_root) + enc_opt_model_sub(p.model_sub)
        + enc_opt_approval_defaults(p.approval_defaults) + enc_opt_sandbox_default(
        p.sandbox_default,
    ) + end_mark()
}

/// Encoding of an op.
pub open spec fn enc_op(op: Op) -> Seq<u8> {
    match op {
        Op::UserInput { text } => open_struct(2) + tok_str("user_input"@) + tok_str(text@)
            + end_mark(),
        Op::Interject { text } => open_struct(2) + tok_str("interject"@) + tok_str(text@)
            + end_mark(),
        Op::Approve { request, verdict } => open_struct(3) + tok_str("approve"@) + tok_id(
            request.0,
        ) + tok_variant(verdict_index(verdict)) + end_mark(),
        Op::Interrupt => open_struct(1) + tok_str("interrupt"@) + end_mark(),
        Op::ConfigPatch { patch } => open_struct(2) + tok_str("config_patch"@) + enc_patch(patch)
            + end_mark(),
        Op::Shutdown => open_struct(1) + tok_str("shutdown"@) + end_mark(),
    }
}

/// Encoding of a submission.
pub open spec fn enc_submission(s: Submission) -> Seq<u8> {
    open_struct(2) + tok_id(s.id.0) + enc_op(s.op) + end_mark()
}

/// Encoding of an error code (fields only, after its opening).
pub open spec fn enc_error_code(c: ErrorCode) -> Seq<u8> {
    match c {
        ErrorCode::ModelTransport => open_struct(1) + tok_str("model_transport"@) + end_mark(),
        ErrorCode::ModelOverloaded => open_struct(1) + tok_str("model_overloaded"@) + end_mark(),
        ErrorCode::ModelContextLength => open_struct(1) + tok_str("model_context_length"@)
            + end_mark(),
        ErrorCode::ModelAuth => open_struct(1) + tok_str("model_auth"@) + end_mark(),
        ErrorCode::ToolDenied => open_struct(1) + tok_str("tool_denied"@) + end_mark(),
        ErrorCode::ToolFailed => open_struct(1) + tok_str("tool_failed"@) + end_mark(),
        ErrorCode::ToolTimeout => open_struct(1) + tok_str("tool_timeout"@) + end_mark(),
        ErrorCode::BudgetExhausted { budget_kind } => open_struct(2) + tok_str(
            "budget_exhausted"@,
        ) + tok_variant(budget_kind_index(budget_kind)) + end_mark(),
        ErrorCode::VerbError { verb, cause } => open_struct(3) + tok_str("verb_error"@) + tok_str(
            verb@,
        ) + tok_variant(verb_cause_index(cause)) + end_mark(),
        ErrorCode::SchemaIncompatible => open_struct(1) + tok_str("schema_incompatible"@)
            + end_mark(),
        ErrorCode::StoreIo => open_struct(1) + tok_str("store_io"@) + end_mark(),
        ErrorCode::ConfigInvalid => open_struct(1) + tok_str("config_invalid"@) + end_mark(),
        ErrorCode::Cancelled => open_struct(1) + tok_str("cancelled"@) + end_mark(),
        ErrorCode::Internal => open_struct(1) + tok_str("internal"@) + end_mark(),
    }
}

/// Encoding of an optional submission id.
pub open spec fn enc_opt_submission_id(o: Option<crate::protocol::ids::SubmissionId>) -> Seq<u8> {
    match o {
        Some(id) => tok_some(tok_id(id.0)),
        None => tok_none(),
    }
}

/// The four fields of an error event.
pub open spec fn enc_error_event_fields(e: ErrorEvent) -> Seq<u8> {
    tok_variant(error_class_index(e.class)) + enc_error_code(e.code) + tok_str(e.message@)
        + enc_opt_submission_id(e.correlates)
}

/// Encoding of a tool outcome.
pub open spec fn enc_tool_outcome(o: ToolOutcome) -> Seq<u8> {
    match o {
        ToolOutcome::Succeeded => open_struct(1) + tok_str("succeeded"@) + end_mark(),
        ToolOutcome::Failed { message } => open_struct(2) + tok_str("failed"@) + tok_str(
            message@,
        ) + end_mark(),
        ToolOutcome::Denied => open_struct(1) + tok_str("denied"@) + end_mark(),
        ToolOutcome::Aborted => open_struct(1) + tok_str("aborted"@) + end_mark(),
    }
}

/// Encoding of an event.
pub open spec fn enc_event(e: Event) -> Seq<u8> {
    match e {
        Event::TurnStarted { epoch, correlates } => open_struct(3) + tok_str("turn_started"@)
            + tok_id(epoch.0) + enc_opt_submission_id(correlates) + end_mark(),
        Event::TurnEnded { epoch, reason } => open_struct(3) + tok_str("turn_ended"@) + tok_id(
            epoch.0,
        ) + tok_variant(turn_end_index(reason)) + end_mark(),
        Event::ModelDelta { epoch, preview, record_seq, text } => open_struct(5) + tok_str(
            "model_delta"@,
        ) + tok_id(epoch.0) + tok_bool(preview) + tok_u64(record_seq) + tok_str(text@)
            + end_mark(),
        Event::ToolProposed { call, name, args_json } => open_struct(4) + tok_str(
            "tool_proposed"@,
        ) + tok_id(call.0) + tok_str(name@) + tok_str(args_json@) + end_mark(),
        Event::ToolStarted { call } => open_struct(2) + tok_str("tool_started"@) + tok_id(call.0)
            + end_mark(),
        Event::ToolOutputDelta { call, chunk } => open_struct(3) + tok_str("tool_output_delta"@)
            + tok_id(call.0) + tok_str(chunk@) + end_mark(),
        Event::ToolTerminal { call, outcome } => open_struct(3) + tok_str("tool_terminal"@)
            + tok_id(call.0) + enc_tool_outcome(outcome) + end_mark(),
        Event::ApprovalRequested { request, call, description } => open_struct(4) + tok_str(
            "approval_requested"@,
        ) + tok_id(request.0) + tok_id(call.0) + tok_str(description@) + end_mark(),
        Event::BudgetUpdate { kind, used, limit } => open_struct(4) + tok_str("budget_update"@)
            + tok_variant(budget_kind_index(kind)) + tok_u64(used) + tok_u64(limit) + end_mark(),
        Event::CompactionStarted { epoch } => open_struct(2) + tok_str("compaction_started"@)
            + tok_id(epoch.0) + end_mark(),
        Event::CompactionApplied { epoch } => open_struct(2) + tok_str("compaction_applied"@)
            + tok_id(epoch.0) + end_mark(),
        Event::CompactionSuppressed { epoch } => open_struct(2) + tok_str(
            "compaction_suppressed"@,
        ) + tok_id(epoch.0) + end_mark(),
        Event::QueryTrace { query, line, note } => open_struct(4) + tok_str("query_trace"@)
            + tok_id(query.0) + tok_u16(line) + tok_str(note@) + end_mark(),
        Event::Error(err) => open_struct(5) + tok_str("error"@) + enc_error_event_fields(err)
            + end_mark(),
        Event::ShuttingDown => open_struct(1) + tok_str("shutting_down"@) + end_mark(),
    }
}

// ---------------------------------------------------------------------------
// Writers
// ---------------------------------------------------------------------------

/// Appends the `n` low-order bytes of `v`, least significant first.
pub fn push_le(buf: &mut Vec<u8>, v: u64, n: usize)
    requires
        n <= 8,
    ensures
        final(buf)@ == old(buf)@ + le_bytes(v as nat, n as nat),
{
    let ghost start = buf@;
    let mut x = v;
    let mut i: usize = 0;
    while i < n
        invariant
            i <= n,
            buf@ + le_bytes(x as nat, (n - i) as nat) == start + le_bytes(v as nat, n as nat),
        decreases n - i,
    {
        let ghost prev = buf@;
        buf.push((x % 256) as u8);
        assert(le_bytes(x as nat, (n - i) as nat) =~= seq![(x % 256) as u8] + le_bytes(
            (x / 256) as nat,
            (n - i - 1) as nat,
        ));
        assert(buf@ + le_bytes((x / 256) as nat, (n - i - 1) as nat) =~= prev + le_bytes(
            x as nat,
            (n - i) as nat,
        ));
        x = x / 256;
        i = i + 1;
    }
    assert(le_bytes(x as nat, 0) =~= Seq::<u8>::empty());
    assert(buf@ =~= start + le_bytes(v as nat, n as nat));
}

/// Appends raw bytes.
pub fn push_bytes(buf: &mut Vec<u8>, b: &[u8])
    ensures
        final(buf)@ == old(buf)@ + b@,
{
    let ghost start = buf@;
    let mut i: usize = 0;
    while i < b.len()
        invariant
            i <= b@.len(),
            buf@ == start + b@.take(i as int),
        decreases b@.len() - i,
    {
        buf.push(b[i]);
        assert(b@.take(i + 1) =~= b@.take(i as int).push(b@[i as int]));
        i = i + 1;
    }
    assert(b@.take(i as int) =~= b@);
}

/// Appends a `u64` length and the bytes.
pub fn push_sized(buf: &mut Vec<u8>, b: &[u8])
    ensures
        final(buf)@ == old(buf)@ + sized(b@),
{
    let ghost start = buf@;
    push_le(buf, b.len() as u64, 8);
    push_bytes(buf, b);
    assert(buf@ =~= start + sized(b@));
}

/// Appends one byte.
pub fn push_byte(buf: &mut Vec<u8>, b: u8)
    ensures
        final(buf)@ == old(buf)@ + seq![b],
{
    buf.push(b);
    assert(buf@ =~= old(buf)@ + seq![b]);
}

/// Appends a string token.
pub fn push_str_token(buf: &mut Vec<u8>, s: &str)
    ensures
        final(buf)@ == old(buf)@ + tok_str(s@),
{
    let ghost start = buf@;
    push_byte(buf, 0x0f);
    push_sized(buf, s.as_bytes());
    assert(buf@ =~= start + tok_str(s@));
}

/// Appends a `u8` token.
pub fn push_u8_token(buf: &mut Vec<u8>, v: u8)
    ensures
        final(buf)@ == old(buf)@ + tok_u8(v),
{
    buf.push(0x07);
    buf.push(v);
    assert(buf@ =~= old(buf)@ + tok_u8(v));
}

/// Appends a `u16` token.
pub fn push_u16_token(buf: &mut Vec<u8>, v: u16)
    ensures
        final(buf)@ == old(buf)@ + tok_u16(v),
{
    let ghost start = buf@;
    push_byte(buf, 0x08);
    push_le(buf, v as u64, 2);
    assert(buf@ =~= start + tok_u16(v));
}

/// Appends a `u32` token.
pub fn push_u32_token(buf: &mut Vec<u8>, v: u32)
    ensures
        final(buf)@ == old(buf)@ + tok_u32(v),
{
    let ghost start = buf@;
    push_byte(buf, 0x09);
    push_le(buf, v as u64, 4);
    assert(buf@ =~= start + tok_u32(v));
}

/// Appends a `u64` token.
pub fn push_u64_token(buf: &mut Vec<u8>, v: u64)
    ensures
        final(buf)@ == old(buf)@ + tok_u64(v),
{
    let ghost start = buf@;
    push_byte(buf, 0x0a);
    push_le(buf, v, 8);
    assert(buf@ =~= start + tok_u64(v));
}

/// Appends a unit-variant token.
pub fn push_variant(buf: &mut Vec<u8>, index: u32)
    ensures
        final(buf)@ == old(buf)@ + tok_variant(index),
{
    let ghost start = buf@;
    push_byte(buf, 0x15);
    push_le(buf, index as u64, 4);
    assert(buf@ =~= start + tok_variant(index));
}

/// Appends a newtype-wrapped `u64` identity.
pub fn push_id(buf: &mut Vec<u8>, v: u64)
    ensures
        final(buf)@ == old(buf)@ + tok_id(v),
{
    let ghost start = buf@;
    push_byte(buf, 0x16);
    push_u64_token(buf, v);
    assert(buf@ =~= start + tok_id(v));
}

/// Appends a structure opening.
pub fn push_open_struct(buf: &mut Vec<u8>, len: u64)
    ensures
        final(buf)@ == old(buf)@ + open_struct(len as nat),
{
    let ghost start = buf@;
    push_byte(buf, 0x1d);
    push_le(buf, len, 8);
    assert(buf@ =~= start + open_struct(len as nat));
}

/// Appends an end marker.
pub fn push_end(buf: &mut Vec<u8>)
    ensures
        final(buf)@ == old(buf)@ + end_mark(),
{
    push_byte(buf, 0xff);
}

/// Appends a budget set.
pub fn push_budgets(buf: &mut Vec<u8>, b: &Budgets)
    ensures
        final(buf)@ == old(buf)@ + enc_budgets(*b),
{
    let ghost start = buf@;
    push_open_struct(buf, 16);
    push_u32_token(buf, b.verb_output_bytes);
    push_u32_token(buf, b.tool_result_bytes);
    push_u32_token(buf, b.ask_digest_bytes);
    push_u16_token(buf, b.verb_count);
    push_u8_token(buf, b.recursion_depth);
    push_u16_token(buf, b.total_subcalls);
    push_u8_token(buf, b.parallel_subcalls);
    push_u16_token(buf, b.partition_count);
    push_u32_token(buf, b.selected_bytes);
    push_u32_token(buf, b.scanned_pages);
    push_u64_token(buf, b.scanned_bytes);
    push_u32_token(buf, b.page_effects);
    push_u8_token(buf, b.suspended_queries);
    push_u32_token(buf, b.continuation_memory_bytes);
    push_u32_token(buf, b.ask_wall_clock_ms);
    push_u32_token(buf, b.ask_tokens);
    push_end(buf);
    assert(buf@ =~= start + enc_budgets(*b));
}

/// Appends compaction thresholds.
pub fn push_compaction(buf: &mut Vec<u8>, c: &CompactionThresholds)
    ensures
        final(buf)@ == old(buf)@ + enc_compaction(*c),
{
    let ghost start = buf@;
    push_open_struct(buf, 2);
    push_u8_token(buf, c.prefire_percent);
    push_u8_token(buf, c.hard_percent);
    push_end(buf);
    assert(buf@ =~= start + enc_compaction(*c));
}

/// Appends stationarity thresholds.
pub fn push_stationarity(buf: &mut Vec<u8>, s: &StationarityThresholds)
    ensures
        final(buf)@ == old(buf)@ + enc_stationarity(*s),
{
    let ghost start = buf@;
    push_open_struct(buf, 2);
    push_u16_token(buf, s.identical_calls);
    push_u16_token(buf, s.identical_noops);
    push_end(buf);
    assert(buf@ =~= start + enc_stationarity(*s));
}

/// Appends queue bounds.
pub fn push_queues(buf: &mut Vec<u8>, q: &QueueBounds)
    ensures
        final(buf)@ == old(buf)@ + enc_queues(*q),
{
    let ghost start = buf@;
    push_open_struct(buf, 4);
    push_u16_token(buf, q.model_deltas);
    push_u16_token(buf, q.effect_progress);
    push_u16_token(buf, q.interjections);
    push_u16_token(buf, q.max_active_effects);
    push_end(buf);
    assert(buf@ =~= start + enc_queues(*q));
}

/// Appends a string-to-string map.
pub fn push_string_map(buf: &mut Vec<u8>, m: &OrderedMap<String>)
    ensures
        final(buf)@ == old(buf)@ + enc_string_map(*m),
{
    let ghost start = buf@;
    buf.push(0x1c);
    buf.push(1);
    push_le(buf, m.len() as u64, 8);
    let ghost mid = buf@;
    let mut i: usize = 0;
    while i < m.len()
        invariant
            i <= m@.len(),
            buf@ == mid + enc_string_entries(m@.take(i as int)),
        decreases m@.len() - i,
    {
        push_str_token(buf, m.key_at(i).as_str());
        push_str_token(buf, m.value_at(i).as_str());
        assert(m@.take(i + 1).drop_last() =~= m@.take(i as int));
        assert(buf@ =~= mid + enc_string_entries(m@.take(i + 1)));
        i = i + 1;
    }
    assert(m@.take(i as int) =~= m@);
    push_end(buf);
    assert(buf@ =~= start + enc_string_map(*m));
}

/// Appends a string-to-policy map.
pub fn push_policy_map(buf: &mut Vec<u8>, m: &OrderedMap<ApprovalPolicy>)
    ensures
        final(buf)@ == old(buf)@ + enc_policy_map(*m),
{
    let ghost start = buf@;
    buf.push(0x1c);
    buf.push(1);
    push_le(buf, m.len() as u64, 8);
    let ghost mid = buf@;
    let mut i: usize = 0;
    while i < m.len()
        invariant
            i <= m@.len(),
            buf@ == mid + enc_policy_entries(m@.take(i as int)),
        decreases m@.len() - i,
    {
        push_str_token(buf, m.key_at(i).as_str());
        let index: u32 = match m.value_at(i) {
            ApprovalPolicy::Auto => 0,
            ApprovalPolicy::Ask => 1,
            ApprovalPolicy::Deny => 2,
        };
        push_variant(buf, index);
        assert(m@.take(i + 1).drop_last() =~= m@.take(i as int));
        assert(buf@ =~= mid + enc_policy_entries(m@.take(i + 1)));
        i = i + 1;
    }
    assert(m@.take(i as int) =~= m@);
    push_end(buf);
    assert(buf@ =~= start + enc_policy_map(*m));
}

/// Appends a sandbox policy.
pub fn push_sandbox(buf: &mut Vec<u8>, p: &SandboxPolicy)
    ensures
        final(buf)@ == old(buf)@ + enc_sandbox(*p),
{
    let ghost start = buf@;
    match p {
        SandboxPolicy::DangerFullAccess => {
            push_open_struct(buf, 1);
            push_str_token(buf, "danger_full_access");
            push_end(buf);
        },
        SandboxPolicy::ReadOnly => {
            push_open_struct(buf, 1);
            push_str_token(buf, "read_only");
            push_end(buf);
        },
        SandboxPolicy::WorkspaceWrite { writable_roots } => {
            push_open_struct(buf, 2);
            push_str_token(buf, "workspace_write");
            buf.push(0x18);
            buf.push(1);
            push_le(buf, writable_roots.len() as u64, 8);
            let ghost mid = buf@;
            let mut i: usize = 0;
            while i < writable_roots.len()
                invariant
                    i <= writable_roots@.len(),
                    buf@ == mid + enc_str_elems(writable_roots@.take(i as int)),
                decreases writable_roots@.len() - i,
            {
                push_str_token(buf, writable_roots[i].as_str());
                assert(writable_roots@.take(i + 1).drop_last() =~= writable_roots@.take(i as int));
                assert(buf@ =~= mid + enc_str_elems(writable_roots@.take(i + 1)));
                i = i + 1;
            }
            assert(writable_roots@.take(i as int) =~= writable_roots@);
            push_end(buf);
            push_end(buf);
        },
    }
    assert(buf@ =~= start + enc_sandbox(*p));
}

fn push_patch_compaction(buf: &mut Vec<u8>, o: &Option<CompactionThresholds>)
    ensures
        final(buf)@ == old(buf)@ + enc_opt_compaction(*o),
{
    let ghost start = buf@;
    match o {
        Some(c) => {
            push_byte(buf, 0x12);
            push_compaction(buf, c);
        },
        None => push_byte(buf, 0x11),
    }
    assert(buf@ =~= start + enc_opt_compaction(*o));
}

fn push_patch_stationarity(buf: &mut Vec<u8>, o: &Option<StationarityThresholds>)
    ensures
        final(buf)@ == old(buf)@ + enc_opt_stationarity(*o),
{
    let ghost start = buf@;
    match o {
        Some(c) => {
            push_byte(buf, 0x12);
            push_stationarity(buf, c);
        },
        None => push_byte(buf, 0x11),
    }
    assert(buf@ =~= start + enc_opt_stationarity(*o));
}

fn push_patch_budgets(buf: &mut Vec<u8>, o: &Option<Budgets>)
    ensures
        final(buf)@ == old(buf)@ + enc_opt_budgets(*o),
{
    let ghost start = buf@;
    match o {
        Some(c) => {
            push_byte(buf, 0x12);
            push_budgets(buf, c);
        },
        None => push_byte(buf, 0x11),
    }
    assert(buf@ =~= start + enc_opt_budgets(*o));
}

fn push_patch_queues(buf: &mut Vec<u8>, o: &Option<QueueBounds>)
    ensures
        final(buf)@ == old(buf)@ + enc_opt_queues(*o),
{
    let ghost start = buf@;
    match o {
        Some(c) => {
            push_byte(buf, 0x12);
            push_queues(buf, c);
        },
        None => push_byte(buf, 0x11),
    }
    assert(buf@ =~= start + enc_opt_queues(*o));
}

fn push_patch_prompt_overrides(buf: &mut Vec<u8>, o: &Option<OrderedMap<String>>)
    ensures
        final(buf)@ == old(buf)@ + enc_opt_prompt_overrides(*o),
{
    let ghost start = buf@;
    match o {
        Some(c) => {
            push_byte(buf, 0x12);
            push_string_map(buf, c);
        },
        None => push_byte(buf, 0x11),
    }
    assert(buf@ =~= start + enc_opt_prompt_overrides(*o));
}

fn push_patch_model_root(buf: &mut Vec<u8>, o: &Option<String>)
    ensures
        final(buf)@ == old(buf)@ + enc_opt_model_root(*o),
{
    let ghost start = buf@;
    match o {
        Some(c) => {
            push_byte(buf, 0x12);
            push_str_token(buf, c.as_str());
        },
        None => push_byte(buf, 0x11),
    }
    assert(buf@ =~= start + enc_opt_model_root(*o));
}

fn push_patch_model_sub(buf: &mut Vec<u8>, o: &Option<String>)
    ensures
        final(buf)@ == old(buf)@ + enc_opt_model_sub(*o),
{
    let ghost start = buf@;
    match o {
        Some(c) => {
            push_byte(buf, 0x12);
            push_str_token(buf, c.as_str());
        },
        None => push_byte(buf, 0x11),
    }
    assert(buf@ =~= start + enc_opt_model_sub(*o));
}

fn push_patch_approval_defaults(buf: &mut Vec<u8>, o: &Option<OrderedMap<ApprovalPolicy>>)
    ensures
        final(buf)@ == old(buf)@ + enc_opt_approval_defaults(*o),
{
    let ghost start = buf@;
    match o {
        Some(c) => {
            push_byte(buf, 0x12);
            push_policy_map(buf, c);
        },
        None => push_byte(buf, 0x11),
    }
    assert(buf@ =~= start + enc_opt_approval_defaults(*o));
}

fn push_patch_sandbox_default(buf: &mut Vec<u8>, o: &Option<SandboxPolicy>)
    ensures
        final(buf)@ == old(buf)@ + enc_opt_sandbox_default(*o),
{
    let ghost start = buf@;
    match o {
        Some(c) => {
            push_byte(buf, 0x12);
            push_sandbox(buf, c);
        },
        None => push_byte(buf, 0x11),
    }
    assert(buf@ =~= start + enc_opt_sandbox_default(*o));
}

/// Appends a configuration patch.
#[verifier::rlimit(40)]
pub fn push_patch(buf: &mut Vec<u8>, p: &SessionConfigPatch)
    ensures
        final(buf)@ == old(buf)@ + enc_patch(*p),
{
    let ghost start = buf@;
    push_open_struct(buf, 9);
    let ghost x = open_struct(9);
    let ghost before = buf@;
    push_patch_compaction(buf, &p.compaction);
    proof {
        lemma_add_assoc(start, x, enc_opt_compaction(p.compaction));
        x = x + enc_opt_compaction(p.compaction);
    }
    assert(buf@ == start + x);
    let ghost before = buf@;
    push_patch_stationarity(buf, &p.stationarity);
    proof {
        lemma_add_assoc(start, x, enc_opt_stationarity(p.stationarity));
        x = x + enc_opt_stationarity(p.stationarity);
    }
    assert(buf@ == start + x);
    let ghost before = buf@;
    push_patch_budgets(buf, &p.budgets);
    proof {
        lemma_add_assoc(start, x, enc_opt_budgets(p.budgets));
        x = x + enc_opt_budgets(p.budgets);
    }
    assert(buf@ == start + x);
    let ghost before = buf@;
    push_patch_queues(buf, &p.queues);
    proof {
        lemma_add_assoc(start, x, enc_opt_queues(p.queues));
        x = x + enc_opt_queues(p.queues);
    }
    assert(buf@ == start + x);
    let ghost before = buf@;
    push_patch_prompt_overrides(buf, &p.prompt_overrides);
    proof {
        lemma_add_assoc(start, x, enc_opt_prompt_overrides(p.prompt_overrides));
        x = x + enc_opt_prompt_overrides(p.prompt_overrides);
    }
    assert(buf@ == start + x);
    let ghost before = buf@;
    push_patch_model_root(buf, &p.model_root);
    proof {
        lemma_add_assoc(start, x, enc_opt_model_root(p.model_root));
        x = x + enc_opt_model_root(p.model_root);
    }
    assert(buf@ == start + x);
    let ghost before = buf@;
    push_patch_model_sub(buf, &p.model_sub);
    proof {
        lemma_add_assoc(start, x, enc_opt_model_sub(p.model_sub));
        x = x + enc_opt_model_sub(p.model_sub);
    }
    assert(buf@ == start + x);
    let ghost before = buf@;
    push_patch_approval_defaults(buf, &p.approval_defaults);
    proof {
        lemma_add_assoc(start, x, enc_opt_approval_defaults(p.approval_defaults));
        x = x + enc_opt_approval_defaults(p.approval_defaults);
    }
    assert(buf@ == start + x);
    push_patch_sandbox_default(buf, &p.sandbox_default);
    proof {
        lemma_add_assoc(start, x, enc_opt_sandbox_default(p.sandbox_default));
        x = x + enc_opt_sandbox_default(p.sandbox_default);
    }
    assert(buf@ == start + x);
    push_end(buf);
    proof {
        lemma_add_assoc(start, x, end_mark());
    }
    assert(x + end_mark() == enc_patch(*p));
}

/// Concatenation is associative.
pub proof fn lemma_add_assoc(a: Seq<u8>, b: Seq<u8>, c: Seq<u8>)
    ensures
        (a + b) + c == a + (b + c),
{
    assert((a + b) + c =~= a + (b + c));
}

/// Appends an op.
pub fn push_op(buf: &mut Vec<u8>, op: &Op)
    ensures
        final(buf)@ == old(buf)@ + enc_op(*op),
{
    let ghost start = buf@;
    match op {
        Op::UserInput { text } => {
            push_open_struct(buf, 2);
            push_str_token(buf, "user_input");
            push_str_token(buf, text.as_str());
        },
        Op::Interject { text } => {
            push_open_struct(buf, 2);
            push_str_token(buf, "interject");
            push_str_token(buf, text.as_str());
        },
        Op::Approve { request, verdict } => {
            push_open_struct(buf, 3);
            push_str_token(buf, "approve");
            push_id(buf, request.0);
            let index: u32 = match verdict {
                ApprovalVerdict::Approve => 0,
                ApprovalVerdict::Deny => 1,
            };
            push_variant(buf, index);
        },
        Op::Interrupt => {
            push_open_struct(buf, 1);
            push_str_token(buf, "interrupt");
        },
        Op::ConfigPatch { patch } => {
            push_open_struct(buf, 2);
            push_str_token(buf, "config_patch");
            push_patch(buf, patch);
        },
        Op::Shutdown => {
            push_open_struct(buf, 1);
            push_str_token(buf, "shutdown");
        },
    }
    push_end(buf);
    assert(buf@ =~= start + enc_op(*op));
}

/// Appends a submission.
pub fn push_submission(buf: &mut Vec<u8>, s: &Submission)
    ensures
        final(buf)@ == old(buf)@ + enc_submission(*s),
{
    let ghost start = buf@;
    push_open_struct(buf, 2);
    push_id(buf, s.id.0);
    push_op(buf, &s.op);
    push_end(buf);
    assert(buf@ =~= start + enc_submission(*s));
}

/// Declaration index of a budget kind.
pub fn budget_kind_number(k: BudgetKind) -> (r: u32)
    ensures
        r == budget_kind_index(k),
{
    match k {
        BudgetKind::VerbOutput => 0,
        BudgetKind::ToolResult => 1,
        BudgetKind::AskDigest => 2,
        BudgetKind::VerbCount => 3,
        BudgetKind::RecursionDepth => 4,
        BudgetKind::TotalSubcalls => 5,
        BudgetKind::ParallelSubcalls => 6,
        BudgetKind::PartitionCount => 7,
        BudgetKind::SelectedBytes => 8,
        BudgetKind::ScannedPages => 9,
        BudgetKind::ScannedBytes => 10,
        BudgetKind::PageEffects => 11,
        BudgetKind::SuspendedQueries => 12,
        BudgetKind::ContinuationMemory => 13,
        BudgetKind::AskWallClock => 14,
        BudgetKind::AskTokens => 15,
        BudgetKind::TurnTokens => 16,
    }
}

/// Appends an error code.
pub fn push_error_code(buf: &mut Vec<u8>, c: &ErrorCode)
    ensures
        final(buf)@ == old(buf)@ + enc_error_code(*c),
{
    let ghost start = buf@;
    match c {
        ErrorCode::ModelTransport => {
            push_open_struct(buf, 1);
            push_str_token(buf, "model_transport");
        },
        ErrorCode::ModelOverloaded => {
            push_open_struct(buf, 1);
            push_str_token(buf, "model_overloaded");
        },
        ErrorCode::ModelContextLength => {
            push_open_struct(buf, 1);
            push_str_token(buf, "model_context_length");
        },
        ErrorCode::ModelAuth => {
            push_open_struct(buf, 1);
            push_str_token(buf, "model_auth");
        },
        ErrorCode::ToolDenied => {
            push_open_struct(buf, 1);
            push_str_token(buf, "tool_denied");
        },
        ErrorCode::ToolFailed => {
            push_open_struct(buf, 1);
            push_str_token(buf, "tool_failed");
        },
        ErrorCode::ToolTimeout => {
            push_open_struct(buf, 1);
            push_str_token(buf, "tool_timeout");
        },
        ErrorCode::BudgetExhausted { budget_kind } => {
            push_open_struct(buf, 2);
            push_str_token(buf, "budget_exhausted");
            push_variant(buf, budget_kind_number(*budget_kind));
        },
        ErrorCode::VerbError { verb, cause } => {
            push_open_struct(buf, 3);
            push_str_token(buf, "verb_error");
            push_str_token(buf, verb.as_str());
            let index: u32 = match cause {
                VerbErrorCause::BadRef => 0,
                VerbErrorCause::BadRange => 1,
                VerbErrorCause::BadFlag => 2,
                VerbErrorCause::Parse => 3,
                VerbErrorCause::Budget => 4,
            };
            push_variant(buf, index);
        },
        ErrorCode::SchemaIncompatible => {
            push_open_struct(buf, 1);
            push_str_token(buf, "schema_incompatible");
        },
        ErrorCode::StoreIo => {
            push_open_struct(buf, 1);
            push_str_token(buf, "store_io");
        },
        ErrorCode::ConfigInvalid => {
            push_open_struct(buf, 1);
            push_str_token(buf, "config_invalid");
        },
        ErrorCode::Cancelled => {
            push_open_struct(buf, 1);
            push_str_token(buf, "cancelled");
        },
        ErrorCode::Internal => {
            push_open_struct(buf, 1);
            push_str_token(buf, "internal");
        },
    }
    push_end(buf);
    assert(buf@ =~= start + enc_error_code(*c));
}

/// Appends an optional submission id.
pub fn push_opt_submission_id(buf: &mut Vec<u8>, o: Option<crate::protocol::ids::SubmissionId>)
    ensures
        final(buf)@ == old(buf)@ + enc_opt_submission_id(o),
{
    let ghost start = buf@;
    match o {
        Some(id) => {
            push_byte(buf, 0x12);
            push_id(buf, id.0);
        },
        None => push_byte(buf, 0x11),
    }
    assert(buf@ =~= start + enc_opt_submission_id(o));
}

/// Appends the four fields of an error event.
pub fn push_error_event_fields(buf: &mut Vec<u8>, e: &ErrorEvent)
    ensures
        final(buf)@ == old(buf)@ + enc_error_event_fields(*e),
{
    let ghost start = buf@;
    let index: u32 = match e.class {
        ErrorClass::Retryable => 0,
        ErrorClass::Fatal => 1,
        ErrorClass::UserActionable => 2,
    };
    push_variant(buf, index);
    push_error_code(buf, &e.code);
    push_str_token(buf, e.message.as_str());
    push_opt_submission_id(buf, e.correlates);
    assert(buf@ =~= start + enc_error_event_fields(*e));
}

/// Appends a tool outcome.
pub fn push_tool_outcome(buf: &mut Vec<u8>, o: &ToolOutcome)
    ensures
        final(buf)@ == old(buf)@ + enc_tool_outcome(*o),
{
    let ghost start = buf@;
    match o {
        ToolOutcome::Succeeded => {
            push_open_struct(buf, 1);
            push_str_token(buf, "succeeded");
        },
        ToolOutcome::Failed { message } => {
            push_open_struct(buf, 2);
            push_str_token(buf, "failed");
            push_str_token(buf, message.as_str());
        },
        ToolOutcome::Denied => {
            push_open_struct(buf, 1);
            push_str_token(buf, "denied");
        },
        ToolOutcome::Aborted => {
            push_open_struct(buf, 1);
            push_str_token(buf, "aborted");
        },
    }
    push_end(buf);
    assert(buf@ =~= start + enc_tool_outcome(*o));
}

/// Appends an event.
#[verifier::rlimit(50)]
pub fn push_event(buf: &mut Vec<u8>, e: &Event)
    ensures
        final(buf)@ == old(buf)@ + enc_event(*e),
{
    let ghost start = buf@;
    match e {
        Event::TurnStarted { epoch, correlates } => {
            push_open_struct(buf, 3);
            push_str_token(buf, "turn_started");
            push_id(buf, epoch.0);
            push_opt_submission_id(buf, *correlates);
            push_end(buf);
            assert(buf@ =~= start + enc_event(*e));
        },
        Event::TurnEnded { epoch, reason } => {
            push_open_struct(buf, 3);
            push_str_token(buf, "turn_ended");
            push_id(buf, epoch.0);
            let index: u32 = match reason {
                TurnEnd::Completed => 0,
                TurnEnd::Interrupted => 1,
                TurnEnd::Failed => 2,
            };
            push_variant(buf, index);
            push_end(buf);
            assert(buf@ =~= start + enc_event(*e));
        },
        Event::ModelDelta { epoch, preview, record_seq, text } => {
            push_open_struct(buf, 5);
            push_str_token(buf, "model_delta");
            push_id(buf, epoch.0);
            push_byte(buf, if *preview { 1u8 } else { 0u8 });
            push_u64_token(buf, *record_seq);
            push_str_token(buf, text.as_str());
            push_end(buf);
            assert(buf@ =~= start + enc_event(*e));
        },
        Event::ToolProposed { call, name, args_json } => {
            push_open_struct(buf, 4);
            push_str_token(buf, "tool_proposed");
            push_id(buf, call.0);
            push_str_token(buf, name.as_str());
            push_str_token(buf, args_json.as_str());
            push_end(buf);
            assert(buf@ =~= start + enc_event(*e));
        },
        Event::ToolStarted { call } => {
            push_open_struct(buf, 2);
            push_str_token(buf, "tool_started");
            push_id(buf, call.0);
            push_end(buf);
            assert(buf@ =~= start + enc_event(*e));
        },
        Event::ToolOutputDelta { call, chunk } => {
            push_open_struct(buf, 3);
            push_str_token(buf, "tool_output_delta");
            push_id(buf, call.0);
            push_str_token(buf, chunk.as_str());
            push_end(buf);
            assert(buf@ =~= start + enc_event(*e));
        },
        Event::ToolTerminal { call, outcome } => {
            push_open_struct(buf, 3);
            push_str_token(buf, "tool_terminal");
            push_id(buf, call.0);
            push_tool_outcome(buf, outcome);
            push_end(buf);
            assert(buf@ =~= start + enc_event(*e));
        },
        Event::ApprovalRequested { request, call, description } => {
            push_open_struct(buf, 4);
            push_str_token(buf, "approval_requested");
            push_id(buf, request.0);
            push_id(buf, call.0);
            push_str_token(buf, description.as_str());
            push_end(buf);
            assert(buf@ =~= start + enc_event(*e));
        },
        Event::BudgetUpdate { kind, used, limit } => {
            push_open_struct(buf, 4);
            push_str_token(buf, "budget_update");
            push_variant(buf, budget_kind_number(*kind));
            push_u64_token(buf, *used);
            push_u64_token(buf, *limit);
            push_end(buf);
            assert(buf@ =~= start + enc_event(*e));
        },
        Event::CompactionStarted { epoch } => {
            push_open_struct(buf, 2);
            push_str_token(buf, "compaction_started");
            push_id(buf, epoch.0);
            push_end(buf);
            assert(buf@ =~= start + enc_event(*e));
        },
        Event::CompactionApplied { epoch } => {
            push_open_struct(buf, 2);
            push_str_token(buf, "compaction_applied");
            push_id(buf, epoch.0);
            push_end(buf);
            assert(buf@ =~= start + enc_event(*e));
        },
        Event::CompactionSuppressed { epoch } => {
            push_open_struct(buf, 2);
            push_str_token(buf, "compaction_suppressed");
            push_id(buf, epoch.0);
            push_end(buf);
            assert(buf@ =~= start + enc_event(*e));
        },
        Event::QueryTrace { query, line, note } => {
            push_open_struct(buf, 4);
            push_str_token(buf, "query_trace");
            push_id(buf, query.0);
            push_u16_token(buf, *line);
            push_str_token(buf, note.as_str());
            push_end(buf);
            assert(buf@ =~= start + enc_event(*e));
        },
        Event::Error(err) => {
            push_open_struct(buf, 5);
            push_str_token(buf, "error");
            push_error_event_fields(buf, err);
            push_end(buf);
            assert(buf@ =~= start + enc_event(*e));
        },
        Event::ShuttingDown => {
            push_open_struct(buf, 1);
            push_str_token(buf, "shutting_down");
            push_end(buf);
            assert(buf@ =~= start + enc_event(*e));
        },
    }
}

} // verus!
