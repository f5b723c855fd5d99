//! The turn engine: a synchronous state machine with no I/O.
//!
//! Drivers feed [`CoreInput`]s in and discharge the action batches that come
//! back. The engine owns session and turn state, the exactly-once terminal
//! ledger (first terminal wins; late or duplicate completions are dropped
//! with a trace record), epoch-scoped cancellation, the stationarity guard,
//! and window assembly. `handle` is never re-entrant and never blocks:
//! verbs and tools that need data or time leave as effects.

use vstd::prelude::*;
use vstd::string::{StrSliceExecFns, StringSliceAdditionalSpecFns};

use crate::caps::{
    clamped, head_tail_excerpt, head_tail_truncation, tool_result_bytes, tool_result_truncation, CapKind,
    Capped, ToolResult as ToolResultCap,
};
use crate::compact::{CompactionModel, CompactionState};
use crate::prompts::{resolve, resolved_text, TemplateId};
use crate::protocol::config::{config_applied, SessionConfig};
use crate::protocol::ordered_map::lookup;
use crate::protocol::error::{class_of, ErrorClass, ErrorCode, ErrorEvent};
use crate::protocol::event::{Event, ToolOutcome, TurnEnd};
use crate::protocol::ids::{EffectId, SubmissionId, TurnEpoch};
use crate::protocol::op::{Op, Submission};
use crate::protocol::policy::{ApprovalPolicy, ApprovalVerdict};
use crate::record::{payload_kind, record_valid, Record, RecordKind, RecordPayload};
use crate::text::{concat, decimal, push_decimal};
use vstd::utf8::encode_utf8;
use crate::tokens::TokenAccounting;
use crate::window::{tail_verdict, TailItem, WindowLayout};

verus! {

/// Intended upper bound on actions per transition.
pub const MAX_ACTIONS: usize = 64;

/// A tool call proposed by the model.
#[derive(Debug, PartialEq, Eq)]
pub struct ProposedToolCall {
    /// Tool name.
    pub name: String,
    /// JSON-encoded arguments as the model produced them.
    pub args_json: String,
}

impl Clone for ProposedToolCall {
    fn clone(&self) -> (res: Self)
        ensures
            res == *self,
    {
        ProposedToolCall { name: self.name.clone(), args_json: self.args_json.clone() }
    }
}

/// Provider usage attached to a model terminal (calibration input).
#[derive(Clone, Copy, Debug, PartialEq, Eq, Structural)]
pub struct Usage {
    /// Prompt tokens the provider reported.
    pub prompt_tokens: u64,
    /// Bytes our window measured for the same content.
    pub prompt_bytes: u64,
}

/// How a model call finished.
#[derive(Clone, Debug, PartialEq, Eq)]
pub struct ModelOutcome {
    /// Final assistant text (may be empty when only tools were called).
    pub text: String,
    /// Proposed tool calls, in model order.
    pub tool_calls: Vec<ProposedToolCall>,
    /// Provider usage, when reported.
    pub usage: Option<Usage>,
}

/// Terminal payload of a finished effect.
#[derive(Clone, Debug, PartialEq, Eq)]
#[non_exhaustive]
pub enum EffectTerminal {
    /// A root model call finished.
    Model(ModelOutcome),
    /// A tool finished; `output` is the full untruncated output.
    Tool {
        /// Outcome class.
        outcome: ToolOutcome,
        /// Full output (the engine truncates for the window; the full value
        /// is committed to the log).
        output: String,
    },
    /// The effect failed at the driver layer.
    Failed {
        /// The failure.
        error: ErrorCode,
        /// Human-readable context.
        message: String,
    },
}

/// What a started effect asks the driver to do.
#[derive(Clone, Debug, PartialEq, Eq)]
#[non_exhaustive]
pub enum EffectSpec {
    /// Call the root model with this assembled window.
    ModelCall(WindowLayout),
    /// Execute a tool.
    Tool(ProposedToolCall),
}

/// One input into the engine.
#[derive(Clone, Debug, PartialEq, Eq)]
#[non_exhaustive]
pub enum CoreInput {
    /// A client submission.
    ClientOp(Submission),
    /// An effect finished (exactly once per effect; enforced here anyway).
    EffectFinished {
        /// The effect.
        id: EffectId,
        /// The epoch it was started under.
        epoch: TurnEpoch,
        /// Its terminal payload.
        terminal: EffectTerminal,
    },
    /// The appender's durability watermark advanced.
    Persisted {
        /// All records with `seq <= up_to_seq` are durable.
        up_to_seq: u64,
    },
    /// The appender failed; the session cannot keep acting.
    PersistFailed {
        /// The failing sequence.
        at_seq: u64,
        /// Driver-supplied context.
        message: String,
    },
}

/// One action for the driver to discharge, in order.
#[derive(Clone, Debug, PartialEq, Eq)]
#[non_exhaustive]
pub enum CoreAction {
    /// Append these records through the log appender.
    Commit(Vec<Record>),
    /// Publish this event (the driver holds it until the covering
    /// watermark; the record carrying it is in the same batch's commits,
    /// except for the store error after an append failure, which no record
    /// can carry).
    Publish(Event),
    /// Start an effect.
    StartEffect {
        /// The new effect's identity.
        id: EffectId,
        /// The epoch it belongs to.
        epoch: TurnEpoch,
        /// What to do.
        spec: EffectSpec,
    },
    /// Cancel an in-flight effect.
    CancelEffect {
        /// The effect to cancel.
        id: EffectId,
    },
}

/// An owned action batch (never a lazy iterator).
#[derive(Clone, Debug, PartialEq, Eq)]
pub struct Transition {
    /// Actions in dispatch order.
    pub actions: Vec<CoreAction>,
}

impl Default for Transition {
    fn default() -> (r: Self)
        ensures
            r.actions@.len() == 0,
    {
        Transition { actions: Vec::new() }
    }
}

/// Where the session currently stands.
#[derive(Clone, Copy, Debug, PartialEq, Eq, Structural)]
enum Phase {
    /// Between turns.
    Idle,
    /// A root model call is in flight.
    AwaitingModel(EffectId),
    /// Tool calls are running; the turn resamples when all are terminal.
    RunningTools,
    /// Shutdown requested; no new effects start.
    Draining,
    /// The appender failed; only draining remains.
    Failed,
}

/// One in-flight tool call slot (rejoined in proposal order).
struct CallSlot {
    id: EffectId,
    call: ProposedToolCall,
    done: bool,
    awaiting_approval: Option<SubmissionId>,
}

/// The approval policy configured for tool `name`; `Auto` by default.
spec fn policy_for(config: SessionConfig, name: Seq<char>) -> ApprovalPolicy {
    match lookup(config.approval_defaults@, name) {
        Some(p) => p,
        None => ApprovalPolicy::Auto,
    }
}

/// Action `a` publishes that call `id` proposes `c`.
spec fn is_proposal(a: CoreAction, id: EffectId, c: ProposedToolCall) -> bool {
    match a {
        CoreAction::Publish(Event::ToolProposed { call, name, args_json }) => call == id && name@
            == c.name@ && args_json@ == c.args_json@,
        _ => false,
    }
}

/// Action `a` publishes that call `id` waits for approval `request`.
spec fn is_request(a: CoreAction, id: EffectId, request: SubmissionId) -> bool {
    match a {
        CoreAction::Publish(Event::ApprovalRequested { request: rq, call, .. }) => call == id && rq
            == request,
        _ => false,
    }
}

/// The batch publishes that call `id` proposes `c`.
spec fn publishes_proposal(actions: Seq<CoreAction>, id: EffectId, c: ProposedToolCall) -> bool {
    exists|k: int| 0 <= k < actions.len() && #[trigger] is_proposal(actions[k], id, c)
}

/// The batch publishes that call `id` waits for approval `request`.
spec fn publishes_request(actions: Seq<CoreAction>, id: EffectId, request: SubmissionId) -> bool {
    exists|k: int| 0 <= k < actions.len() && #[trigger] is_request(actions[k], id, request)
}

/// What dispatching the `i`-th proposed call `c` did: it became call
/// `next_effect + i`, was proposed, and then, by its tool's policy, was
/// started, denied, or held for approval.
spec fn call_dispatched(
    before: Engine,
    after: Engine,
    actions: Seq<CoreAction>,
    c: ProposedToolCall,
    i: int,
) -> bool {
    let id = EffectId((before.next_effect + i) as u64);
    let slot = after.calls@[before.calls@.len() + i];
    &&& 0 <= i
    &&& before.calls@.len() + i < after.calls@.len()
    &&& slot.id == id
    &&& slot.call == c
    &&& publishes_proposal(actions, id, c)
    &&& match policy_for(before.config, c.name@) {
        ApprovalPolicy::Auto => {
            &&& !slot.done
            &&& slot.awaiting_approval is None
            &&& carries(actions, CoreAction::Publish(Event::ToolStarted { call: id }))
            &&& carries(
                actions,
                CoreAction::StartEffect { id, epoch: before.epoch, spec: EffectSpec::Tool(c) },
            )
        },
        ApprovalPolicy::Deny => {
            &&& slot.done
            &&& after.finished@.contains(id)
            &&& carries(
                actions,
                CoreAction::Publish(Event::ToolTerminal { call: id, outcome: ToolOutcome::Denied }),
            )
        },
        ApprovalPolicy::Ask => {
            &&& !slot.done
            &&& slot.awaiting_approval matches Some(rq) && publishes_request(actions, id, rq)
        },
    }
}

/// The actions by which the `i`-th proposed call `c` was dispatched under
/// `before`: it was proposed, and then started, denied, or held for an
/// approval request, by its tool's policy.
spec fn call_announced(before: Engine, actions: Seq<CoreAction>, c: ProposedToolCall, i: int) -> bool {
    let id = EffectId((before.next_effect + i) as u64);
    &&& publishes_proposal(actions, id, c)
    &&& match policy_for(before.config, c.name@) {
        ApprovalPolicy::Auto => carries(
            actions,
            CoreAction::StartEffect { id, epoch: before.epoch, spec: EffectSpec::Tool(c) },
        ),
        ApprovalPolicy::Deny => carries(
            actions,
            CoreAction::Publish(Event::ToolTerminal { call: id, outcome: ToolOutcome::Denied }),
        ),
        ApprovalPolicy::Ask => exists|rq: SubmissionId| #[trigger] publishes_request(actions, id, rq),
    }
}

proof fn lemma_announced(
    before: Engine,
    after: Engine,
    a1: Seq<CoreAction>,
    a2: Seq<CoreAction>,
    c: ProposedToolCall,
    i: int,
)
    requires
        call_dispatched(before, after, a1, c, i),
        grows_from(a2, a1),
    ensures
        call_announced(before, a2, c, i),
{
    lemma_dispatched_kept(before, after, after, a1, a2, c, i);
    let slot = after.calls@[before.calls@.len() + i];
    if policy_for(before.config, c.name@) == ApprovalPolicy::Ask {
        let rq = slot.awaiting_approval->Some_0;
        assert(publishes_request(a2, EffectId((before.next_effect + i) as u64), rq));
    }
}

proof fn lemma_push_keeps(s: Seq<EffectId>, v: EffectId)
    ensures
        forall|x: EffectId| s.contains(x) ==> #[trigger] s.push(v).contains(x),
        s.push(v).contains(v),
{
    assert(s.push(v)[s.len() as int] == v);
    assert forall|x: EffectId| s.contains(x) implies #[trigger] s.push(v).contains(x) by {
        let k = choose|k: int| 0 <= k < s.len() && s[k] == x;
        assert(s.push(v)[k] == x);
    }
}

proof fn lemma_dispatched_kept(
    before: Engine,
    e1: Engine,
    e2: Engine,
    a1: Seq<CoreAction>,
    a2: Seq<CoreAction>,
    c: ProposedToolCall,
    j: int,
)
    requires
        call_dispatched(before, e1, a1, c, j),
        e2.calls@.len() >= e1.calls@.len(),
        forall|k: int| 0 <= k < e1.calls@.len() ==> #[trigger] e2.calls@[k] == e1.calls@[k],
        forall|x: EffectId| e1.finished@.contains(x) ==> e2.finished@.contains(x),
        grows_from(a2, a1),
    ensures
        call_dispatched(before, e2, a2, c, j),
{
    let id = EffectId((before.next_effect + j) as u64);
    assert(e2.calls@[before.calls@.len() + j] == e1.calls@[before.calls@.len() + j]);
    let k = choose|k: int| 0 <= k < a1.len() && #[trigger] is_proposal(a1[k], id, c);
    assert(extends(a1[k], a2[k]));
    assert(a2[k] == a1[k]);
    assert(is_proposal(a2[k], id, c));
    match policy_for(before.config, c.name@) {
        ApprovalPolicy::Auto => {
            lemma_carries_kept(a1, a2, CoreAction::Publish(Event::ToolStarted { call: id }));
            lemma_carries_kept(
                a1,
                a2,
                CoreAction::StartEffect { id, epoch: before.epoch, spec: EffectSpec::Tool(c) },
            );
        },
        ApprovalPolicy::Deny => {
            lemma_carries_kept(
                a1,
                a2,
                CoreAction::Publish(Event::ToolTerminal { call: id, outcome: ToolOutcome::Denied }),
            );
        },
        ApprovalPolicy::Ask => {
            let rq = e1.calls@[before.calls@.len() + j].awaiting_approval->Some_0;
            let m = choose|m: int| 0 <= m < a1.len() && #[trigger] is_request(a1[m], id, rq);
            assert(extends(a1[m], a2[m]));
            assert(a2[m] == a1[m]);
            assert(is_request(a2[m], id, rq));
        },
    }
}

/// The transcript entries dispatching `calls` added, the first call
/// becoming effect `first`: for each call in order, the call rendered as
/// `name args`, followed, when its tool's policy denies it, by a result
/// carrying the capped text "[denied by policy]".
pub closed spec fn dispatch_tail(
    added: Seq<TailItem>,
    calls: Seq<ProposedToolCall>,
    config: SessionConfig,
    first: int,
) -> bool
    decreases calls.len(),
{
    if calls.len() == 0 {
        added.len() == 0
    } else {
        let c = calls.last();
        let id = EffectId((first + calls.len() - 1) as u64);
        let deny = policy_for(config, c.name@) == ApprovalPolicy::Deny;
        let k: int = if deny {
            2
        } else {
            1
        };
        let at = added.len() - k;
        &&& added.len() >= k
        &&& added[at] matches TailItem::ToolCall { call, text } && call == id && text@ == c.name@
            + " "@ + c.args_json@
        &&& deny ==> (added[at + 1] matches TailItem::ToolResult { call, text } && call == id
            && text.bytes() == head_tail_excerpt(
            "[denied by policy]".spec_bytes(),
            clamped(config.budgets.tool_result_bytes, ToolResultCap::ceiling()),
        ))
        &&& dispatch_tail(added.take(at), calls.drop_last(), config, first)
    }
}

/// What answering the approval of slot `i` did: an approval publishes that
/// the call started and ends the batch by starting it; anything else
/// records it finished, publishes it denied, and gives the model a result
/// for it.
pub closed spec fn approval_answered(
    before: Engine,
    after: Engine,
    actions: Seq<CoreAction>,
    i: int,
    approved: bool,
) -> bool {
    let id = before.calls@[i].id;
    if approved {
        &&& carries(actions, CoreAction::Publish(Event::ToolStarted { call: id }))
        &&& actions.len() > 0
        &&& actions.last() == CoreAction::StartEffect {
            id,
            epoch: before.epoch,
            spec: EffectSpec::Tool(before.calls@[i].call),
        }
        &&& after.finished == before.finished
        &&& after.calls@[i].awaiting_approval is None
    } else {
        &&& after.finished@ == before.finished@.push(id)
        &&& carries(
            actions,
            CoreAction::Publish(Event::ToolTerminal { call: id, outcome: ToolOutcome::Denied }),
        )
        &&& after.tail@.drop_last() == before.tail@
        &&& after.tail@.last() matches TailItem::ToolResult { call, .. } && call == id
    }
}

/// The length of the run of identical first proposals once `c` is the
/// latest.
spec fn next_run(e: Engine, c: ProposedToolCall) -> int {
    if e.last_call_shape matches Some((n, a)) && n@ == c.name@ && a@ == c.args_json@ {
        e.identical_run + 1
    } else {
        1
    }
}

/// What the awaited model call's answer did: the call is recorded
/// finished; a reply without tool calls completes the turn; a run of
/// identical first proposals reaching the stationarity threshold fails
/// it; otherwise every proposed call is dispatched by its policy.
pub closed spec fn model_answered(before: Engine, after: Engine, actions: Seq<CoreAction>, outcome: ModelOutcome) -> bool {
    let calls = outcome.tool_calls@;
    let said: int = if outcome.text@.len() > 0 {
        1
    } else {
        0
    };
    &&& after.finished@.contains(before.phase->AwaitingModel_0)
    &&& after.tail@.len() >= before.tail@.len() + said
    &&& after.tail@.take(before.tail@.len() as int) == before.tail@
    &&& said == 1 ==> (after.tail@[before.tail@.len() as int] matches TailItem::Message(m) && m@
        == "[assistant] "@ + outcome.text@)
    &&& calls.len() == 0 ==> after.tail@.len() == before.tail@.len() + said
    &&& calls.len() == 0 ==> after.phase == Phase::Idle && carries(
        actions,
        CoreAction::Publish(Event::TurnEnded { epoch: before.epoch, reason: TurnEnd::Completed }),
    )
    &&& calls.len() > 0 ==> {
        let run = next_run(before, calls[0]);
        &&& after.identical_run == run
        &&& run >= before.config.stationarity.identical_calls ==> after.phase == Phase::Idle
            && carries(
            actions,
            CoreAction::Publish(Event::TurnEnded { epoch: before.epoch, reason: TurnEnd::Failed }),
        )
        &&& run < before.config.stationarity.identical_calls ==> forall|k: int|
            0 <= k < calls.len() ==> #[trigger] call_announced(before, actions, calls[k], k)
        &&& run < before.config.stationarity.identical_calls ==> dispatch_tail(
            after.tail@.skip(before.tail@.len() + said),
            calls,
            before.config,
            before.next_effect as int,
        )
        &&& run >= before.config.stationarity.identical_calls ==> after.tail@.len()
            == before.tail@.len() + said
    }
}

/// `after` is `before` with one more action: starting the root model
/// call `EffectId(e.next_effect)` under `e`'s epoch over the window `e`
/// assembles.
spec fn starts_model_call(after: Seq<CoreAction>, before: Seq<CoreAction>, e: Engine) -> bool {
    &&& after.len() == before.len() + 1
    &&& after.drop_last() == before
    &&& match after.last() {
        CoreAction::StartEffect { id, epoch, spec } => {
            &&& id == EffectId(e.next_effect)
            &&& epoch == e.epoch
            &&& match spec {
                EffectSpec::ModelCall(w) => window_for(w, e),
                _ => false,
            }
        },
        _ => false,
    }
}

/// What a finished tool call `id` did: the batch commits exactly two
/// records, first the call's outcome record carrying its full output bytes
/// `output`, then the event record; the call is recorded finished, its
/// outcome is published, and its result, capped to the configured budget
/// and pointing at the outcome record's sequence, joins the transcript
/// tail.
pub closed spec fn tool_answered(
    before: Engine,
    after: Engine,
    actions: Seq<CoreAction>,
    id: EffectId,
    outcome: ToolOutcome,
    output: Seq<u8>,
) -> bool {
    &&& committed(actions).len() == 2
    &&& committed(actions)[0].kind == RecordKind::EffectOutcome
    &&& committed(actions)[0].txn == Some(id)
    &&& committed(actions)[0].payload matches RecordPayload::EffectOutcome(b) && b@ == output
    &&& committed(actions)[1].kind == RecordKind::EmittedEvent
    &&& after.finished@ == before.finished@.push(id)
    &&& carries(actions, CoreAction::Publish(Event::ToolTerminal { call: id, outcome }))
    &&& after.tail@.len() == before.tail@.len() + 1
    &&& after.tail@.drop_last() == before.tail@
    &&& after.tail@.last() matches TailItem::ToolResult { call, text } && call == id
        && text.bytes() == tool_result_bytes(
        output,
        clamped(before.config.budgets.tool_result_bytes, ToolResultCap::ceiling()),
        committed(actions)[0].seq,
    ) && text.cut() == tool_result_truncation(
        output,
        clamped(before.config.budgets.tool_result_bytes, ToolResultCap::ceiling()),
        committed(actions)[0].seq,
    )
}

/// What a user turn on an idle engine did: a new epoch began with an empty
/// ledger, the turn was reported started, and the batch ends by starting
/// the root model call, now awaited, over a window whose last user query
/// is `text`.
pub closed spec fn turn_begun(
    before: Engine,
    after: Engine,
    actions: Seq<CoreAction>,
    text: Seq<char>,
    correlates: Option<SubmissionId>,
) -> bool {
    let epoch = TurnEpoch((before.epoch.0 + 1) as u64);
    let id = EffectId(before.next_effect);
    &&& after.epoch == epoch
    &&& after.finished@.len() == 0
    &&& after.last_user_query@ == text
    &&& after.phase == Phase::AwaitingModel(id)
    &&& carries(actions, CoreAction::Publish(Event::TurnStarted { epoch, correlates }))
    &&& actions.len() > 0
    &&& match actions.last() {
        CoreAction::StartEffect { id: started, epoch: e, spec } => {
            &&& started == id
            &&& e == epoch
            &&& match spec {
                EffectSpec::ModelCall(w) => w.last_user_query@ == text,
                _ => false,
            }
        },
        _ => false,
    }
}

/// A user message `text` joined the transcript tail, to reach the model at
/// the next sampling point; nothing else but the sequence counter changed.
pub closed spec fn interjected(before: Engine, after: Engine, text: Seq<char>) -> bool {
    &&& after.tail@.len() == before.tail@.len() + 1
    &&& after.tail@.drop_last() == before.tail@
    &&& after.tail@.last() matches TailItem::Message(m) && m@ == "[user] "@ + text
    &&& (Engine { tail: after.tail, next_seq: after.next_seq, ..before }) == after
}

/// Slot `s` is call `id`, and still running when `open_only`.
spec fn slot_matches(s: CallSlot, id: EffectId, open_only: bool) -> bool {
    s.id == id && (!open_only || !s.done)
}

/// `w` is the window the engine `e` assembles: the system prompt, the
/// last user query, the summary, and, when the tail pairs every call with
/// its result, the tail and the query-capability reminder; an unpaired
/// tail is left out with the reminder.
spec fn window_for(w: WindowLayout, e: Engine) -> bool {
    &&& w.system@ == resolved_text(TemplateId::System, e.config)
    &&& w.user_info@ == Seq::<char>::empty()
    &&& w.rules_reminder@ == Seq::<char>::empty()
    &&& w.last_user_query@ == e.last_user_query@
    &&& w.summary@ == e.summary@
    &&& tail_verdict(e.tail@) is Ok ==> {
        &&& w.verbatim_tail@ == e.tail@
        &&& w.reminders@.len() == 1
        &&& w.reminders@[0]@ == resolved_text(TemplateId::RlmReminder, e.config)
    }
    &&& tail_verdict(e.tail@) is Err ==> w.verbatim_tail@.len() == 0 && w.reminders@.len() == 0
}

/// The engine.
pub struct Engine {
    config: SessionConfig,
    phase: Phase,
    epoch: TurnEpoch,
    next_seq: u64,
    next_effect: u64,
    next_request: u64,
    persisted: u64,
    /// Exactly-once terminal ledger for the current epoch.
    finished: Vec<EffectId>,
    calls: Vec<CallSlot>,
    tail: Vec<TailItem>,
    last_user_query: String,
    summary: String,
    identical_run: u32,
    last_call_shape: Option<(String, String)>,
    /// Compaction scheduling (consulted at turn boundaries).
    pub compaction: CompactionState,
    /// Token accounting.
    pub tokens: TokenAccounting,
}

/// All records a batch commits, in order.
pub open spec fn committed(actions: Seq<CoreAction>) -> Seq<Record>
    decreases actions.len(),
{
    if actions.len() == 0 {
        Seq::empty()
    } else {
        committed(actions.drop_last()) + match actions.last() {
            CoreAction::Commit(rs) => rs@,
            _ => Seq::empty(),
        }
    }
}

/// The action commits a record carrying event `e`.
pub open spec fn commits_event(a: CoreAction, e: Event) -> bool {
    a matches CoreAction::Commit(rs) && exists|k: int|
        0 <= k < rs@.len() && (#[trigger] rs@[k]).payload == RecordPayload::EmittedEvent(e)
}

/// Every published event is carried by a record committed earlier in the
/// same batch.
pub open spec fn publish_backed(actions: Seq<CoreAction>) -> bool {
    forall|i: int| 0 <= i < actions.len() ==> #[trigger] backed_at(actions, i)
}

/// The action at `i`, if a publish, is backed by an earlier commit.
pub open spec fn backed_at(actions: Seq<CoreAction>, i: int) -> bool {
    actions[i] matches CoreAction::Publish(e) ==> exists|j: int|
        0 <= j < i && commits_event(actions[j], e)
}

/// The committed records are valid and numbered consecutively, the last
/// one just below `next_seq`.
pub open spec fn numbered_below(rs: Seq<Record>, next_seq: int) -> bool {
    forall|k: int|
        0 <= k < rs.len() ==> (#[trigger] rs[k]).seq == next_seq - rs.len() + k && record_valid(
            rs[k],
        )
}

/// A well-formed batch as of the sequence counter `next_seq`.
pub open spec fn batch_ok(actions: Seq<CoreAction>, next_seq: int) -> bool {
    numbered_below(committed(actions), next_seq) && publish_backed(actions)
}

/// The number of tool calls an input proposes.
pub open spec fn proposed_calls(input: CoreInput) -> nat {
    match input {
        CoreInput::EffectFinished { terminal, .. } => match terminal {
            EffectTerminal::Model(o) => o.tool_calls@.len(),
            _ => 0,
        },
        _ => 0,
    }
}

/// Configuration patches carried by the input are sorted maps.
pub open spec fn input_wf(input: CoreInput) -> bool {
    match input {
        CoreInput::ClientOp(s) => match s.op {
            Op::ConfigPatch { patch } => patch.wf(),
            _ => true,
        },
        _ => true,
    }
}

impl Engine {
    /// The next log sequence the engine will assign.
    pub closed spec fn seq_counter(self) -> u64 {
        self.next_seq
    }

    /// The current turn epoch.
    pub closed spec fn turn_epoch(self) -> TurnEpoch {
        self.epoch
    }

    /// The durability watermark.
    pub closed spec fn watermark(self) -> u64 {
        self.persisted
    }

    /// The effects whose terminal was already accepted this epoch.
    pub closed spec fn ledger(self) -> Seq<EffectId> {
        self.finished@
    }

    /// Every tool call of the turn has finished and none waits for approval.
    spec fn settled(self) -> bool {
        forall|j: int|
            0 <= j < self.calls@.len() ==> (#[trigger] self.calls@[j]).done
                && self.calls@[j].awaiting_approval is None
    }

    /// Some call of the turn waits for the answer to `request`.
    pub closed spec fn awaits(self, request: SubmissionId) -> bool {
        exists|i: int|
            0 <= i < self.calls@.len() && (#[trigger] self.calls@[i]).awaiting_approval == Some(
                request,
            )
    }

    /// Slot `i` is the first that waits for the answer to `request`.
    pub closed spec fn awaits_at(self, request: SubmissionId, i: int) -> bool {
        &&& 0 <= i < self.calls@.len()
        &&& self.calls@[i].awaiting_approval == Some(request)
        &&& forall|j: int|
            0 <= j < i ==> (#[trigger] self.calls@[j]).awaiting_approval != Some(request)
    }

    /// A tool call `id` of the turn is still running.
    pub closed spec fn has_open_call(self, id: EffectId) -> bool {
        exists|i: int| 0 <= i < self.calls@.len() && slot_matches(#[trigger] self.calls@[i], id, true)
    }

    /// A turn is under way: a model call or tool calls are pending.
    pub closed spec fn mid_turn(self) -> bool {
        self.phase is AwaitingModel || self.phase is RunningTools
    }

    /// Between turns.
    pub closed spec fn is_idle(self) -> bool {
        self.phase == Phase::Idle
    }

    /// Effect `id` has been started and neither finished nor held for
    /// approval.
    pub closed spec fn in_flight(self, id: EffectId) -> bool {
        ||| self.phase == Phase::AwaitingModel(id)
        ||| exists|i: int|
            0 <= i < self.calls@.len() && (#[trigger] self.calls@[i]).id == id
                && !self.calls@[i].done && self.calls@[i].awaiting_approval is None
    }

    /// Root model call `id` is awaited.
    pub closed spec fn awaits_model(self, id: EffectId) -> bool {
        self.phase == Phase::AwaitingModel(id)
    }

    /// Tool call `id` has been started and has not finished.
    pub closed spec fn tool_running(self, id: EffectId) -> bool {
        exists|i: int|
            0 <= i < self.calls@.len() && (#[trigger] self.calls@[i]).id == id
                && !self.calls@[i].done && self.calls@[i].awaiting_approval is None
    }

    /// Shutdown was requested: no new effects start.
    pub closed spec fn is_draining(self) -> bool {
        self.phase == Phase::Draining
    }

    /// The transcript tail.
    pub closed spec fn transcript(self) -> Seq<TailItem> {
        self.tail@
    }

    /// The compaction scheduler's state.
    pub closed spec fn compaction_model(self) -> CompactionModel {
        self.compaction@
    }

    /// The session configuration in force.
    pub closed spec fn config_of(self) -> SessionConfig {
        self.config
    }

    /// The appender failed and the engine only drains.
    pub closed spec fn is_failed(self) -> bool {
        self.phase == Phase::Failed
    }

    /// The engine's internal consistency: its configuration tables are
    /// sorted maps.
    pub closed spec fn inv(self) -> bool {
        self.config.wf()
    }

    /// Counters can absorb `calls` proposed tool calls and the fixed
    /// per-input work without overflowing.
    pub closed spec fn room(self, calls: nat) -> bool {
        &&& self.next_seq + 4 + 2 * calls <= u64::MAX
        &&& self.next_effect + 2 + calls <= u64::MAX
        &&& self.next_request + calls <= u64::MAX
        &&& self.epoch.0 < u64::MAX
        &&& self.identical_run < u32::MAX
    }

    /// Everything but the sequence counter equals `other`.
    pub closed spec fn same_but_seq(self, other: Self) -> bool {
        Engine { next_seq: other.next_seq, ..self } == other
    }

    /// Everything but the watermark equals `other`.
    pub closed spec fn same_but_watermark(self, other: Self) -> bool {
        Engine { persisted: other.persisted, ..self } == other
    }

    /// A fresh engine for one session. `header_seq_base` is the next free
    /// sequence after the header record the driver already appended.
    pub fn new(config: SessionConfig, header_seq_base: u64) -> (r: Self)
        requires
            config.wf(),
        ensures
            r.inv(),
            r.seq_counter() == header_seq_base,
            r.turn_epoch() == TurnEpoch(0),
            r.watermark() == 0,
            r.ledger().len() == 0,
            !r.is_failed(),
    {
        Engine {
            config,
            phase: Phase::Idle,
            epoch: TurnEpoch(0),
            next_seq: header_seq_base,
            next_effect: 1,
            next_request: 1,
            persisted: 0,
            finished: Vec::new(),
            calls: Vec::new(),
            tail: Vec::new(),
            last_user_query: String::new(),
            summary: String::new(),
            identical_run: 0,
            last_call_shape: None,
            compaction: CompactionState::default(),
            tokens: TokenAccounting::default(),
        }
    }

    /// The durability watermark last reported by the appender.
    pub fn persisted(&self) -> (r: u64)
        ensures
            r == self.watermark(),
    {
        self.persisted
    }

    /// Whether the counters can absorb an input that proposes `calls` tool
    /// calls.
    pub fn has_room(&self, calls: usize) -> (r: bool)
        ensures
            r == self.room(calls as nat),
    {
        let c = calls as u128;
        (self.next_seq as u128) + 4 + 2 * c <= u64::MAX as u128 && (self.next_effect as u128) + 2
            + c <= u64::MAX as u128 && (self.next_request as u128) + c <= u64::MAX as u128
            && self.epoch.0 < u64::MAX && self.identical_run < u32::MAX
    }

    /// Current turn epoch (the driver stamps effect completions with it).
    pub fn epoch(&self) -> (r: TurnEpoch)
        ensures
            r == self.turn_epoch(),
    {
        self.epoch
    }
}

proof fn lemma_committed_push(actions: Seq<CoreAction>, a: CoreAction)
    ensures
        committed(actions.push(a)) == committed(actions) + match a {
            CoreAction::Commit(rs) => rs@,
            _ => Seq::empty(),
        },
{
    assert(actions.push(a).drop_last() =~= actions);
}

/// `b` keeps every record `a` commits, or is `a` itself.
pub open spec fn extends(a: CoreAction, b: CoreAction) -> bool {
    a == b || (a matches CoreAction::Commit(x) && b matches CoreAction::Commit(y) && y@.len()
        >= x@.len() && forall|k: int| 0 <= k < x@.len() ==> y@[k] == x@[k])
}

/// Action `a` cancels an effect that was in flight in `e`.
pub open spec fn cancels_in_flight(e: Engine, a: CoreAction) -> bool {
    a matches CoreAction::CancelEffect { id } && e.in_flight(id)
}

/// What an append failure did: the engine latched failed without using a
/// sequence number, and the batch is the cancellation of every effect that
/// was in flight, and nothing else, followed by the store error: the log no
/// longer takes records, so nothing is committed.
pub open spec fn persist_failure_answered(
    before: Engine,
    after: Engine,
    actions: Seq<CoreAction>,
    at_seq: u64,
    message: Seq<char>,
) -> bool {
    &&& after.is_failed()
    &&& after.seq_counter() == before.seq_counter()
    &&& actions.len() >= 1
    &&& actions.last() matches CoreAction::Publish(Event::Error(e)) && e.class == ErrorClass::Fatal
        && e.code == ErrorCode::StoreIo && e.message@ == "append failed at seq "@ + decimal(
        at_seq as nat,
    ) + ": "@ + message && e.correlates is None
    &&& forall|k: int| 0 <= k < actions.len() - 1 ==> cancels_in_flight(before, #[trigger] actions[k])
    &&& forall|id: EffectId| before.in_flight(id) ==> carries(actions, CoreAction::CancelEffect { id })
}

/// What an interrupt of a turn under way does: the engine is idle
/// afterwards, every effect that was in flight is cancelled, and the turn
/// is reported ended as interrupted.
pub open spec fn interrupted(before: Engine, after: Engine, actions: Seq<CoreAction>) -> bool {
    &&& after.is_idle()
    &&& forall|id: EffectId|
        before.in_flight(id) ==> carries(actions, CoreAction::CancelEffect { id })
    &&& carries(
        actions,
        CoreAction::Publish(
            Event::TurnEnded { epoch: before.turn_epoch(), reason: TurnEnd::Interrupted },
        ),
    )
}

/// The batch opens by committing the accepted submission `s`.
pub open spec fn opens_with_accepted(actions: Seq<CoreAction>, s: Submission) -> bool {
    &&& actions.len() > 0
    &&& actions[0] matches CoreAction::Commit(rs) && rs@.len() > 0 && rs@[0].kind
        == RecordKind::AcceptedOp && (rs@[0].payload matches RecordPayload::AcceptedOp(a)
        && a.same_as(s))
}

/// What a client submission `s` to an engine that has not failed did,
/// beyond logging it first: a user turn on an idle engine begins a turn
/// and starts the root model call, and mid-turn joins the transcript as
/// an interjection; an approval answers the first call waiting for it; an
/// interrupt ends a turn under way; a configuration patch is logged,
/// applied, and resets the compaction breaker; shutdown starts draining,
/// is announced, and cancels every running tool call.
pub open spec fn op_answered(
    before: Engine,
    after: Engine,
    actions: Seq<CoreAction>,
    s: Submission,
) -> bool {
    match s.op {
        Op::UserInput { text } => {
            &&& before.is_idle() ==> turn_begun(before, after, actions, text@, Some(s.id))
            &&& !before.is_idle() ==> interjected(before, after, text@) && actions.len() == 1
        },
        Op::Interject { text } => interjected(before, after, text@) && actions.len() == 1,
        Op::Approve { request, verdict } => {
            &&& !before.awaits(request) ==> after.same_but_seq(before) && actions.len() == 1
            &&& forall|i: int|
                #[trigger] before.awaits_at(request, i) ==> approval_answered(
                    before,
                    after,
                    actions,
                    i,
                    verdict == ApprovalVerdict::Approve,
                )
        },
        Op::Interrupt => {
            &&& before.mid_turn() ==> interrupted(before, after, actions)
            &&& !before.mid_turn() ==> after.same_but_seq(before) && actions.len() == 1
        },
        Op::ConfigPatch { patch } => {
            &&& committed(actions).len() == 2
            &&& committed(actions)[1].kind == RecordKind::ConfigPatch
            &&& committed(actions)[1].payload matches RecordPayload::ConfigPatch(p) && p.same_as(
                patch,
            )
            &&& config_applied(before.config_of(), after.config_of(), patch)
            &&& after.compaction_model() == (CompactionModel {
                failures: 0,
                suppressed: false,
                ..before.compaction_model()
            })
        },
        Op::Shutdown => {
            &&& after.is_draining()
            &&& carries(actions, CoreAction::Publish(Event::ShuttingDown))
            &&& forall|id: EffectId|
                before.tool_running(id) ==> carries(actions, CoreAction::CancelEffect { id })
        },
    }
}

/// What a completion of effect `id` in the current epoch, not yet in the
/// ledger, did: the awaited model call's answer is taken as
/// `model_answered` says; a running tool call's result is taken as
/// `tool_answered` says; a failure is recorded finished and reported, and
/// a failed root model call ends the turn as failed. A completion for an
/// effect that is neither awaited nor running changes nothing.
pub open spec fn completion_answered(
    before: Engine,
    after: Engine,
    actions: Seq<CoreAction>,
    id: EffectId,
    terminal: EffectTerminal,
) -> bool {
    match terminal {
        EffectTerminal::Model(o) => {
            &&& before.awaits_model(id) ==> model_answered(before, after, actions, o)
            &&& !before.awaits_model(id) ==> after == before && actions.len() == 0
        },
        EffectTerminal::Tool { outcome, output } => {
            &&& before.has_open_call(id) ==> tool_answered(
                before,
                after,
                actions,
                id,
                outcome,
                encode_utf8(output@),
            )
            &&& !before.has_open_call(id) ==> after == before && actions.len() == 0
        },
        EffectTerminal::Failed { error, message } => {
            &&& after.ledger() == before.ledger().push(id)
            &&& carries(
                actions,
                CoreAction::Publish(
                    Event::Error(
                        (ErrorEvent { class: class_of(error), code: error, message, correlates: None }),
                    ),
                ),
            )
            &&& before.awaits_model(id) ==> after.is_idle() && carries(
                actions,
                CoreAction::Publish(
                    Event::TurnEnded { epoch: before.turn_epoch(), reason: TurnEnd::Failed },
                ),
            )
        },
    }
}

/// A running tool call's result is logged in full: the batch that takes
/// it commits exactly one outcome record, for that call, whose payload is
/// the complete output's bytes (the record the window's excerpt points
/// to), and publishes the call's outcome.
pub proof fn lemma_tool_output_is_logged(
    before: Engine,
    after: Engine,
    actions: Seq<CoreAction>,
    id: EffectId,
    outcome: ToolOutcome,
    output: String,
)
    requires
        completion_answered(before, after, actions, id, EffectTerminal::Tool { outcome, output }),
        before.has_open_call(id),
    ensures
        exists|k: int|
            0 <= k < committed(actions).len() && (#[trigger] committed(actions)[k]).kind
                == RecordKind::EffectOutcome && committed(actions)[k].txn == Some(id) && (committed(
                actions,
            )[k].payload matches RecordPayload::EffectOutcome(b) && b@ == encode_utf8(output@))
                && forall|j: int|
                0 <= j < committed(actions).len() && committed(actions)[j].kind
                    == RecordKind::EffectOutcome ==> j == k,
        carries(actions, CoreAction::Publish(Event::ToolTerminal { call: id, outcome })),
        after.transcript().len() == before.transcript().len() + 1,
        after.transcript().last() matches TailItem::ToolResult { call, text } && call == id && (
        text.cut() matches Some(c) ==> c.log_seq == Some(committed(actions)[0].seq)),
        committed(actions)[0].kind == RecordKind::EffectOutcome,
{
    let c = committed(actions);
    assert(c[0].kind == RecordKind::EffectOutcome);
    assert(forall|j: int| 0 <= j < c.len() && c[j].kind == RecordKind::EffectOutcome ==> j == 0);
}

/// `after` keeps every action of `before`, each possibly committing more
/// records, and may add more after them.
pub open spec fn grows_from(after: Seq<CoreAction>, before: Seq<CoreAction>) -> bool {
    after.len() >= before.len() && forall|k: int|
        0 <= k < before.len() ==> #[trigger] extends(before[k], after[k])
}

/// The batch holds action `a`.
pub open spec fn carries(actions: Seq<CoreAction>, a: CoreAction) -> bool {
    exists|k: int| 0 <= k < actions.len() && #[trigger] actions[k] == a
}

proof fn lemma_grows_trans(a: Seq<CoreAction>, b: Seq<CoreAction>, c: Seq<CoreAction>)
    requires
        grows_from(b, a),
        grows_from(c, b),
    ensures
        grows_from(c, a),
{
    assert forall|k: int| 0 <= k < a.len() implies #[trigger] extends(a[k], c[k]) by {
        assert(extends(a[k], b[k]));
        assert(extends(b[k], c[k]));
        if a[k] != b[k] && b[k] != c[k] {
            if let CoreAction::Commit(x) = a[k] {
                if let CoreAction::Commit(y) = b[k] {
                    if let CoreAction::Commit(z) = c[k] {
                        assert forall|j: int| 0 <= j < x@.len() implies z@[j] == x@[j] by {
                            assert(y@[j] == x@[j]);
                        }
                    }
                }
            }
        }
    }
}

proof fn lemma_grows_step(before: Seq<CoreAction>, after: Seq<CoreAction>)
    requires
        after == before || (after.len() == before.len() + 1 && after.drop_last() == before),
    ensures
        grows_from(after, before),
{
    assert forall|k: int| 0 <= k < before.len() implies #[trigger] extends(before[k], after[k]) by {
        if after != before {
            assert(after.drop_last()[k] == after[k]);
        }
    }
}

proof fn lemma_opens_kept(a: Seq<CoreAction>, b: Seq<CoreAction>, s: Submission)
    requires
        opens_with_accepted(a, s),
        grows_from(b, a),
    ensures
        opens_with_accepted(b, s),
{
    assert(extends(a[0], b[0]));
}

proof fn lemma_carries_kept(a: Seq<CoreAction>, b: Seq<CoreAction>, x: CoreAction)
    requires
        grows_from(b, a),
        carries(a, x),
        !(x is Commit),
    ensures
        carries(b, x),
{
    let k = choose|k: int| 0 <= k < a.len() && #[trigger] a[k] == x;
    assert(extends(a[k], b[k]));
    assert(b[k] == x);
}

proof fn lemma_backed_extend(before: Seq<CoreAction>, after: Seq<CoreAction>)
    requires
        publish_backed(before),
        after.len() >= before.len(),
        forall|k: int| 0 <= k < before.len() ==> extends(before[k], after[k]),
        forall|k: int| before.len() <= k < after.len() ==> !(after[k] is Publish),
    ensures
        publish_backed(after),
{
    assert forall|i: int| 0 <= i < after.len() implies backed_at(after, i) by {
        if i < before.len() {
            assert(backed_at(before, i));
            if let CoreAction::Publish(e) = after[i] {
                assert(extends(before[i], after[i]));
                assert(before[i] == after[i]);
                let j = choose|j: int| 0 <= j < i && commits_event(before[j], e);
                assert(extends(before[j], after[j]));
                if before[j] != after[j] {
                    if let CoreAction::Commit(x) = before[j] {
                        if let CoreAction::Commit(y) = after[j] {
                            let k = choose|k: int|
                                0 <= k < x@.len() && (#[trigger] x@[k]).payload
                                    == RecordPayload::EmittedEvent(e);
                            assert(y@[k] == x@[k]);
                        }
                    }
                }
                assert(commits_event(after[j], e));
            }
        }
    }
}

fn push_action(t: &mut Transition, a: CoreAction)
    requires
        !(a is Publish),
    ensures
        final(t).actions@ == old(t).actions@.push(a),
        grows_from(final(t).actions@, old(t).actions@),
        committed(final(t).actions@) == committed(old(t).actions@) + match a {
            CoreAction::Commit(rs) => rs@,
            _ => Seq::empty(),
        },
        publish_backed(old(t).actions@) ==> publish_backed(final(t).actions@),
{
    proof {
        lemma_committed_push(t.actions@, a);
    }
    let ghost before = t.actions@;
    t.actions.push(a);
    proof {
        assert forall|k: int| 0 <= k < before.len() implies #[trigger] extends(
            before[k],
            t.actions@[k],
        ) by {
            assert(t.actions@[k] == before[k]);
        }
        if publish_backed(before) {
            lemma_backed_extend(before, t.actions@);
        }
    }
}

impl Engine {
    /// Commits one record with the next sequence number.
    fn commit(
        &mut self,
        kind: RecordKind,
        txn: Option<EffectId>,
        payload: RecordPayload,
        t: &mut Transition,
    )
        requires
            kind == payload_kind(payload),
            old(self).next_seq < u64::MAX,
            batch_ok(old(t).actions@, old(self).next_seq as int),
        ensures
            *final(self) == (Engine { next_seq: (old(self).next_seq + 1) as u64, ..*old(self) }),
            batch_ok(final(t).actions@, final(self).next_seq as int),
            committed(final(t).actions@).len() == committed(old(t).actions@).len() + 1,
            committed(final(t).actions@).last().kind == kind,
            committed(final(t).actions@).last().txn == txn,
            committed(final(t).actions@).last().payload == payload,
            committed(final(t).actions@) == committed(old(t).actions@).push(
                committed(final(t).actions@).last(),
            ),
            final(t).actions@.len() == old(t).actions@.len() || final(t).actions@.len()
                == old(t).actions@.len() + 1,
            final(t).actions@.len() > 0,
            final(t).actions@.last() matches CoreAction::Commit(rs) && rs@.len() > 0
                && rs@.last().payload == payload,
            old(t).actions@.len() == 0 || !(old(t).actions@.last() is Commit) ==> final(t).actions@.len() == old(t).actions@.len() + 1,
            grows_from(final(t).actions@, old(t).actions@),
    {
        let seq = self.next_seq;
        self.next_seq = self.next_seq + 1;
        let record = match Record::new(seq, kind, txn, self.epoch, payload) {
            Ok(record) => record,
            Err(_) => {
                // Unreachable: the requires pins kind to the payload.
                assert(false);
                return;
            },
        };
        let ghost rec = record;
        let ghost before = t.actions@;
        let n = t.actions.len();
        let merge = n > 0 && match &t.actions[n - 1] {
            CoreAction::Commit(_) => true,
            _ => false,
        };
        if merge {
            let last = t.actions.pop().unwrap();
            let ghost last_action = last;
            let mut records = match last {
                CoreAction::Commit(rs) => rs,
                _ => Vec::new(),
            };
            let ghost old_rs = records@;
            let ghost old_records = records;
            assert(last_action == CoreAction::Commit(old_records));
            records.push(record);
            proof {
                assert(before.drop_last() =~= t.actions@);
                assert(committed(before) == committed(t.actions@) + old_rs);
                lemma_committed_push(t.actions@, CoreAction::Commit(records));
            }
            let ghost mid = t.actions@;
            t.actions.push(CoreAction::Commit(records));
            proof {
                assert(committed(t.actions@) =~= committed(before).push(rec));
                assert forall|k: int| 0 <= k < before.len() implies extends(before[k], t.actions@[k]) by {
                    if k < n - 1 {
                        assert(t.actions@[k] == mid[k]);
                        assert(mid[k] == before[k]);
                    } else {
                        assert(before[k] == CoreAction::Commit(old_records));
                        assert(t.actions@[k] == CoreAction::Commit(records));
                    }
                }
                lemma_backed_extend(before, t.actions@);
            }
        } else {
            let records = vec![record];
            proof {
                assert(records@ =~= seq![rec]);
            }
            push_action(t, CoreAction::Commit(records));
            proof {
                assert(committed(t.actions@) =~= committed(before).push(rec));
            }
        }
    }

    /// Commits an event record and publishes the event.
    fn publish(&mut self, event: Event, t: &mut Transition)
        requires
            old(self).next_seq < u64::MAX,
            batch_ok(old(t).actions@, old(self).next_seq as int),
        ensures
            *final(self) == (Engine { next_seq: (old(self).next_seq + 1) as u64, ..*old(self) }),
            batch_ok(final(t).actions@, final(self).next_seq as int),
            committed(final(t).actions@).len() == committed(old(t).actions@).len() + 1,
            committed(final(t).actions@) == committed(old(t).actions@).push(
                committed(final(t).actions@).last(),
            ),
            committed(final(t).actions@).last().kind == RecordKind::EmittedEvent,
            final(t).actions@.last() == CoreAction::Publish(event),
            grows_from(final(t).actions@, old(t).actions@),
    {
        let copy = event.clone();
        self.commit(RecordKind::EmittedEvent, None, RecordPayload::EmittedEvent(copy), t);
        let ghost before = t.actions@;
        let ghost n = before.len();
        proof {
            lemma_committed_push(before, CoreAction::Publish(event));
            if let CoreAction::Commit(rs) = before.last() {
                assert(rs@.last().payload == RecordPayload::EmittedEvent(event));
                assert(commits_event(before[n - 1], event));
            }
        }
        t.actions.push(CoreAction::Publish(event));
        proof {
            assert forall|i: int| 0 <= i < t.actions@.len() implies backed_at(t.actions@, i) by {
                if i < n {
                    assert(t.actions@[i] == before[i]);
                    assert(backed_at(before, i));
                    if let CoreAction::Publish(e) = t.actions@[i] {
                        let j = choose|j: int| 0 <= j < i && commits_event(before[j], e);
                        assert(t.actions@[j] == before[j]);
                    }
                } else {
                    assert(t.actions@[n - 1] == before[n - 1]);
                    assert(commits_event(t.actions@[n - 1], event));
                }
            }
        }
    }
}


fn contains_id(v: &Vec<EffectId>, id: EffectId) -> (r: bool)
    ensures
        r == v@.contains(id),
{
    let mut i: usize = 0;
    while i < v.len()
        invariant
            i <= v@.len(),
            forall|k: int| 0 <= k < i ==> v@[k] != id,
        decreases v@.len() - i,
    {
        if v[i] == id {
            assert(v@[i as int] == id);
            return true;
        }
        i = i + 1;
    }
    false
}

/// `name args`, as the call is rendered in the tail and in approvals.
fn call_text(call: &ProposedToolCall) -> (r: String)
    ensures
        r@ == call.name@ + " "@ + call.args_json@,
{
    let mut s = concat(call.name.as_str(), " ");
    s.append(call.args_json.as_str());
    s
}

impl Engine {
    /// The engine's private step invariant: well-formed config, batch, and
    /// an unchanged sequence base.
    spec fn kept(self, old_e: Engine, t: Seq<CoreAction>, old_t: Seq<CoreAction>) -> bool {
        &&& self.config.wf() == old_e.config.wf()
        &&& batch_ok(t, self.next_seq as int)
        &&& self.next_seq - committed(t).len() == old_e.next_seq - committed(old_t).len()
    }

    /// Counters grew by at most the given amounts; epoch and run unchanged.
    spec fn grew(self, old_e: Engine, seq: int, eff: int, req: int) -> bool {
        &&& old_e.next_seq <= self.next_seq <= old_e.next_seq + seq
        &&& old_e.next_effect <= self.next_effect <= old_e.next_effect + eff
        &&& old_e.next_request <= self.next_request <= old_e.next_request + req
        &&& self.epoch == old_e.epoch
        &&& self.identical_run == old_e.identical_run
    }

    fn fresh_effect(&mut self) -> (r: EffectId)
        requires
            old(self).next_effect < u64::MAX,
        ensures
            *final(self) == (Engine { next_effect: (old(self).next_effect + 1) as u64, ..*old(self) }),
            r == EffectId(old(self).next_effect),
    {
        let id = EffectId(self.next_effect);
        self.next_effect = self.next_effect + 1;
        id
    }

    fn synthetic_result(&self, text: &str) -> (r: Capped<ToolResultCap>)
        ensures
            r.bytes() == head_tail_excerpt(
                text.spec_bytes(),
                clamped(self.config.budgets.tool_result_bytes, ToolResultCap::ceiling()),
            ),
            r.limit() == self.config.budgets.tool_result_bytes,
            r.cut() == head_tail_truncation(
                text.spec_bytes(),
                clamped(self.config.budgets.tool_result_bytes, ToolResultCap::ceiling()),
                None,
            ),
    {
        Capped::<ToolResultCap>::head_tail(text, self.config.budgets.tool_result_bytes, None)
    }

    /// Assembles the current window. The engine's own tail construction
    /// keeps call/result pairing; the constructor still checks it, and an
    /// unpaired tail falls back to an empty one rather than panicking.
    fn assemble_window(&self) -> (r: WindowLayout)
        ensures
            window_for(r, *self),
    {
        let reminder = resolve(TemplateId::RlmReminder, &self.config).to_owned();
        let mut reminders: Vec<String> = Vec::new();
        reminders.push(reminder);
        let attempt = WindowLayout::new(
            resolve(TemplateId::System, &self.config).to_owned(),
            String::new(),
            String::new(),
            self.last_user_query.clone(),
            crate::window::clone_tail(&self.tail),
            self.summary.clone(),
            reminders,
        );
        match attempt {
            Ok(window) => window,
            Err(_) => {
                let empty: Vec<TailItem> = Vec::new();
                let fallback = WindowLayout::new(
                    resolve(TemplateId::System, &self.config).to_owned(),
                    String::new(),
                    String::new(),
                    self.last_user_query.clone(),
                    empty,
                    self.summary.clone(),
                    Vec::new(),
                );
                match fallback {
                    Ok(window) => window,
                    Err(_) => {
                        assert(crate::window::pairing(Seq::<TailItem>::empty()) == Ok::<
                            Seq<(EffectId, bool)>,
                            crate::window::LayoutError,
                        >(Seq::empty()));
                        assert(false);
                        WindowLayout {
                            system: String::new(),
                            user_info: String::new(),
                            rules_reminder: String::new(),
                            last_user_query: String::new(),
                            verbatim_tail: Vec::new(),
                            summary: String::new(),
                            reminders: Vec::new(),
                        }
                    },
                }
            },
        }
    }

    fn start_model_call(&mut self, t: &mut Transition)
        requires
            batch_ok(old(t).actions@, old(self).next_seq as int),
            old(self).next_effect < u64::MAX,
        ensures
            final(self).phase == Phase::AwaitingModel(EffectId(old(self).next_effect)),
            *final(self) == (Engine {
                next_effect: (old(self).next_effect + 1) as u64,
                phase: Phase::AwaitingModel(EffectId(old(self).next_effect)),
                ..*old(self)
            }),
            final(self).kept(*old(self), final(t).actions@, old(t).actions@),
            starts_model_call(final(t).actions@, old(t).actions@, *old(self)),
    {
        let id = self.fresh_effect();
        self.phase = Phase::AwaitingModel(id);
        let window = self.assemble_window();
        let epoch = self.epoch;
        let ghost before = t.actions@;
        push_action(t, CoreAction::StartEffect { id, epoch, spec: EffectSpec::ModelCall(window) });
        assert(t.actions@.drop_last() =~= before);
    }

    fn end_turn(&mut self, reason: TurnEnd, t: &mut Transition)
        requires
            batch_ok(old(t).actions@, old(self).next_seq as int),
            old(self).next_seq < u64::MAX,
        ensures
            final(self).phase == Phase::Idle,
            final(self).grew(*old(self), 1, 0, 0),
            final(self).kept(*old(self), final(t).actions@, old(t).actions@),
            final(self).finished == old(self).finished,
            final(self).persisted == old(self).persisted,
            final(self).tail == old(self).tail,
            grows_from(final(t).actions@, old(t).actions@),
            carries(
                final(t).actions@,
                CoreAction::Publish(Event::TurnEnded { epoch: old(self).epoch, reason }),
            ),
    {
        let epoch = self.epoch;
        self.publish(Event::TurnEnded { epoch, reason }, t);
        assert(t.actions@[t.actions@.len() - 1] == CoreAction::Publish(
            Event::TurnEnded { epoch, reason },
        ));
        self.phase = Phase::Idle;
        self.calls.clear();
    }

    fn cancel_all(&mut self, t: &mut Transition)
        requires
            batch_ok(old(t).actions@, old(self).next_seq as int),
        ensures
            final(self).grew(*old(self), 0, 0, 0),
            final(self).kept(*old(self), final(t).actions@, old(t).actions@),
            final(self).phase == old(self).phase,
            final(self).finished == old(self).finished,
            final(self).persisted == old(self).persisted,
            grows_from(final(t).actions@, old(t).actions@),
            forall|id: EffectId|
                old(self).in_flight(id) ==> carries(
                    final(t).actions@,
                    CoreAction::CancelEffect { id },
                ),
            forall|id: EffectId|
                old(self).tool_running(id) ==> carries(
                    final(t).actions@,
                    CoreAction::CancelEffect { id },
                ),
            forall|k: int|
                old(t).actions@.len() <= k < final(t).actions@.len() ==> cancels_in_flight(
                    *old(self),
                    #[trigger] final(t).actions@[k],
                ),
            final(t).actions@.subrange(0, old(t).actions@.len() as int) == old(t).actions@,
    {
        let ghost start = t.actions@;
        match self.phase {
            Phase::AwaitingModel(id) => {
                push_action(t, CoreAction::CancelEffect { id });
                assert(t.actions@[t.actions@.len() - 1] == CoreAction::CancelEffect { id });
                assert(t.actions@.subrange(0, start.len() as int) =~= start);
            },
            _ => {
                assert(t.actions@.subrange(0, start.len() as int) =~= start);
            },
        }
        let mut i: usize = 0;
        let ghost t0 = t.actions@;
        while i < self.calls.len()
            invariant
                i <= self.calls@.len(),
                self.calls@ == old(self).calls@,
                self.phase == old(self).phase,
                committed(t.actions@) == committed(t0),
                publish_backed(t0) ==> publish_backed(t.actions@),
                grows_from(t0, start),
                grows_from(t.actions@, t0),
                forall|id: EffectId|
                    self.phase == Phase::AwaitingModel(id) ==> carries(
                        t0,
                        CoreAction::CancelEffect { id },
                    ),
                forall|j: int|
                    0 <= j < i && !(#[trigger] self.calls@[j]).done
                        && self.calls@[j].awaiting_approval is None ==> carries(
                        t.actions@,
                        CoreAction::CancelEffect { id: self.calls@[j].id },
                    ),
                forall|k: int|
                    start.len() <= k < t.actions@.len() ==> cancels_in_flight(
                        *old(self),
                        #[trigger] t.actions@[k],
                    ),
                t.actions@.subrange(0, start.len() as int) == start,
                self.calls@ == old(self).calls@,
            decreases self.calls@.len() - i,
        {
            let ghost before = t.actions@;
            if !self.calls[i].done && self.calls[i].awaiting_approval.is_none() {
                let id = self.calls[i].id;
                push_action(t, CoreAction::CancelEffect { id });
                assert(t.actions@[t.actions@.len() - 1] == CoreAction::CancelEffect { id });
                proof {
                    assert(old(self).calls@[i as int].id == id);
                    assert(cancels_in_flight(*old(self), CoreAction::CancelEffect { id }));
                    assert forall|k: int| start.len() <= k < t.actions@.len() implies cancels_in_flight(
                        *old(self),
                        #[trigger] t.actions@[k],
                    ) by {
                        if k < t.actions@.len() - 1 {
                            assert(t.actions@[k] == before[k]);
                        }
                    }
                    assert(t.actions@.subrange(0, start.len() as int) =~= before.subrange(
                        0,
                        start.len() as int,
                    ));
                }
            }
            proof {
                lemma_grows_trans(t0, before, t.actions@);
                assert forall|j: int|
                    0 <= j < i && !(#[trigger] self.calls@[j]).done
                        && self.calls@[j].awaiting_approval is None implies carries(
                    t.actions@,
                    CoreAction::CancelEffect { id: self.calls@[j].id },
                ) by {
                    lemma_carries_kept(before, t.actions@, CoreAction::CancelEffect { id: self.calls@[j].id });
                }
            }
            i = i + 1;
        }
        proof {
            lemma_grows_trans(start, t0, t.actions@);
            assert forall|id: EffectId| old(self).in_flight(id) implies carries(
                t.actions@,
                CoreAction::CancelEffect { id },
            ) by {
                if self.phase == Phase::AwaitingModel(id) {
                    lemma_carries_kept(t0, t.actions@, CoreAction::CancelEffect { id });
                } else {
                    let j = choose|j: int|
                        0 <= j < self.calls@.len() && (#[trigger] self.calls@[j]).id == id
                            && !self.calls@[j].done && self.calls@[j].awaiting_approval is None;
                    assert(!self.calls@[j].done);
                }
            }
            assert forall|id: EffectId| old(self).tool_running(id) implies carries(
                t.actions@,
                CoreAction::CancelEffect { id },
            ) by {
                let j = choose|j: int|
                    0 <= j < self.calls@.len() && (#[trigger] self.calls@[j]).id == id
                        && !self.calls@[j].done && self.calls@[j].awaiting_approval is None;
                assert(!self.calls@[j].done);
            }
        }
        self.calls.clear();
    }

    fn all_settled(&self) -> (r: bool)
        ensures
            r == self.settled(),
    {
        let mut i: usize = 0;
        while i < self.calls.len()
            invariant
                i <= self.calls@.len(),
                forall|j: int|
                    0 <= j < i ==> (#[trigger] self.calls@[j]).done
                        && self.calls@[j].awaiting_approval is None,
            decreases self.calls@.len() - i,
        {
            if !self.calls[i].done || self.calls[i].awaiting_approval.is_some() {
                return false;
            }
            i = i + 1;
        }
        true
    }

    fn maybe_resample(&mut self, t: &mut Transition)
        requires
            batch_ok(old(t).actions@, old(self).next_seq as int),
            old(self).next_effect < u64::MAX,
        ensures
            final(self).grew(*old(self), 0, 1, 0),
            final(self).kept(*old(self), final(t).actions@, old(t).actions@),
            final(self).finished == old(self).finished,
            final(self).persisted == old(self).persisted,
            final(self).tail == old(self).tail,
            grows_from(final(t).actions@, old(t).actions@),
            committed(final(t).actions@) == committed(old(t).actions@),
            old(self).phase == Phase::Failed ==> final(self).phase == Phase::Failed,
            !(old(self).phase == Phase::RunningTools && old(self).settled()) ==> *final(self)
                == *old(self) && final(t).actions@ == old(t).actions@,
            old(self).phase == Phase::RunningTools && old(self).settled() ==> {
                &&& final(self).phase == Phase::AwaitingModel(EffectId(old(self).next_effect))
                &&& final(self).next_effect == old(self).next_effect + 1
                &&& final(self).next_seq == old(self).next_seq
                &&& final(self).calls@.len() == 0
                &&& final(self).tail == old(self).tail
                &&& starts_model_call(final(t).actions@, old(t).actions@, *old(self))
            },
    {
        proof {
            lemma_grows_step(t.actions@, t.actions@);
        }
        match self.phase {
            Phase::RunningTools => {},
            _ => {
                return;
            },
        }
        if self.all_settled() {
            self.calls.clear();
            let ghost before = t.actions@;
            self.start_model_call(t);
            proof {
                lemma_grows_step(before, t.actions@);
                lemma_committed_push(before, t.actions@.last());
                assert(before.push(t.actions@.last()) =~= t.actions@);
            }
        }
    }
}


impl Engine {
    /// Routes proposed calls through their approval policy: approval is
    /// serial, execution concurrent.
    fn dispatch_tool_calls(&mut self, calls: &Vec<ProposedToolCall>, t: &mut Transition)
        requires
            batch_ok(old(t).actions@, old(self).next_seq as int),
            old(self).next_seq + 2 * calls@.len() <= u64::MAX,
            old(self).next_effect + calls@.len() <= u64::MAX,
            old(self).next_request + calls@.len() <= u64::MAX,
        ensures
            final(self).grew(*old(self), 2 * calls@.len() as int, calls@.len() as int, calls@.len() as int),
            final(self).kept(*old(self), final(t).actions@, old(t).actions@),
            final(self).phase == old(self).phase,
            final(self).persisted == old(self).persisted,
            final(self).config == old(self).config,
            final(self).next_effect == old(self).next_effect + calls@.len(),
            final(self).calls@.len() == old(self).calls@.len() + calls@.len(),
            forall|k: int|
                0 <= k < old(self).calls@.len() ==> #[trigger] final(self).calls@[k] == old(
                    self,
                ).calls@[k],
            forall|x: EffectId| old(self).finished@.contains(x) ==> final(self).finished@.contains(x),
            grows_from(final(t).actions@, old(t).actions@),
            final(self).tail@.len() >= old(self).tail@.len(),
            final(self).tail@.take(old(self).tail@.len() as int) == old(self).tail@,
            dispatch_tail(
                final(self).tail@.skip(old(self).tail@.len() as int),
                calls@,
                old(self).config,
                old(self).next_effect as int,
            ),
            forall|k: int|
                0 <= k < calls@.len() ==> #[trigger] call_dispatched(
                    *old(self),
                    *final(self),
                    final(t).actions@,
                    calls@[k],
                    k,
                ),
    {
        let n = calls.len();
        let mut i: usize = 0;
        proof {
            assert(self.tail@.skip(self.tail@.len() as int) =~= Seq::<TailItem>::empty());
            assert(calls@.take(0) =~= Seq::<ProposedToolCall>::empty());
            assert(self.tail@.take(self.tail@.len() as int) =~= self.tail@);
            assert forall|a: int| 0 <= a < t.actions@.len() implies #[trigger] extends(
                t.actions@[a],
                t.actions@[a],
            ) by {}
        }
        while i < n
            invariant
                n == calls@.len(),
                i <= n,
                self.grew(*old(self), 2 * i as int, i as int, i as int),
                self.next_effect == old(self).next_effect + i,
                self.kept(*old(self), t.actions@, old(t).actions@),
                self.phase == old(self).phase,
                self.persisted == old(self).persisted,
                self.config == old(self).config,
                self.epoch == old(self).epoch,
                old(self).next_seq + 2 * n <= u64::MAX,
                old(self).next_effect + n <= u64::MAX,
                old(self).next_request + n <= u64::MAX,
                self.calls@.len() == old(self).calls@.len() + i,
                forall|k: int|
                    0 <= k < old(self).calls@.len() ==> #[trigger] self.calls@[k] == old(
                        self,
                    ).calls@[k],
                forall|x: EffectId| old(self).finished@.contains(x) ==> self.finished@.contains(x),
                grows_from(t.actions@, old(t).actions@),
                self.tail@.len() >= old(self).tail@.len(),
                self.tail@.take(old(self).tail@.len() as int) == old(self).tail@,
                dispatch_tail(
                    self.tail@.skip(old(self).tail@.len() as int),
                    calls@.take(i as int),
                    old(self).config,
                    old(self).next_effect as int,
                ),
                forall|k: int|
                    0 <= k < i ==> #[trigger] call_dispatched(
                        *old(self),
                        *self,
                        t.actions@,
                        calls@[k],
                        k,
                    ),
            decreases n - i,
        {
            let ghost e0 = *self;
            let ghost a0 = t.actions@;
            let ghost base = old(self).tail@.len() as int;
            let ghost added0 = self.tail@.skip(base);
            let call = calls[i].clone();
            let call_id = self.fresh_effect();
            let text = call_text(&call);
            self.tail.push(TailItem::ToolCall { call: call_id, text });
            let proposed = Event::ToolProposed {
                call: call_id,
                name: call.name.clone(),
                args_json: call.args_json.clone(),
            };
            self.publish(proposed, t);
            let ghost a1 = t.actions@;
            assert(is_proposal(a1[a1.len() - 1], call_id, calls@[i as int]));
            let policy = match self.config.approval_defaults.get(call.name.as_str()) {
                Some(p) => *p,
                None => ApprovalPolicy::Auto,
            };
            assert(policy == policy_for(old(self).config, calls@[i as int].name@));
            match policy {
                ApprovalPolicy::Auto => {
                    let slot_call = call.clone();
                    self.calls.push(
                        CallSlot { id: call_id, call: slot_call, done: false, awaiting_approval: None },
                    );
                    self.publish(Event::ToolStarted { call: call_id }, t);
                    let ghost a2 = t.actions@;
                    let epoch = self.epoch;
                    push_action(
                        t,
                        CoreAction::StartEffect { id: call_id, epoch, spec: EffectSpec::Tool(call) },
                    );
                    proof {
                        lemma_grows_trans(a1, a2, t.actions@);
                        assert(t.actions@[a2.len() - 1] == CoreAction::Publish(
                            Event::ToolStarted { call: call_id },
                        ));
                        assert(t.actions@[a2.len() as int] == CoreAction::StartEffect {
                            id: call_id,
                            epoch,
                            spec: EffectSpec::Tool(calls@[i as int]),
                        });
                    }
                },
                ApprovalPolicy::Deny => {
                    let ghost f0 = self.finished@;
                    self.finished.push(call_id);
                    proof {
                        lemma_push_keeps(f0, call_id);
                    }
                    self.calls.push(CallSlot { id: call_id, call, done: true, awaiting_approval: None });
                    let denied = Event::ToolTerminal { call: call_id, outcome: ToolOutcome::Denied };
                    self.publish(denied, t);
                    assert(t.actions@[t.actions@.len() - 1] == CoreAction::Publish(denied));
                    assert(self.finished@.contains(call_id)) by {
                        assert(self.finished@[self.finished@.len() - 1] == call_id);
                    }
                    let text = self.synthetic_result("[denied by policy]");
                    self.tail.push(TailItem::ToolResult { call: call_id, text });
                },
                ApprovalPolicy::Ask => {
                    let request = SubmissionId(self.next_request);
                    self.next_request = self.next_request + 1;
                    let description = call_text(&call);
                    self.calls.push(
                        CallSlot {
                            id: call_id,
                            call,
                            done: false,
                            awaiting_approval: Some(request),
                        },
                    );
                    self.publish(Event::ApprovalRequested { request, call: call_id, description }, t);
                    assert(is_request(t.actions@[t.actions@.len() - 1], call_id, request));
                },
            }
            proof {
                let added = self.tail@.skip(base);
                let cs = calls@.take(i + 1);
                assert(cs.drop_last() =~= calls@.take(i as int));
                assert(cs.last() == calls@[i as int]);
                let k: int = if policy == ApprovalPolicy::Deny {
                    2
                } else {
                    1
                };
                assert(added.len() == added0.len() + k);
                assert(added.take(added.len() - k) =~= added0);
                assert(added[added.len() - k] == self.tail@[base + added0.len()]);
                assert(self.tail@.take(base) =~= old(self).tail@);
                assert(dispatch_tail(added, cs, old(self).config, old(self).next_effect as int));
                lemma_grows_trans(a0, a1, t.actions@);
                lemma_grows_trans(old(t).actions@, a0, t.actions@);
                assert(extends(a1[a1.len() - 1], t.actions@[a1.len() - 1]));
                assert(t.actions@[a1.len() - 1] == a1[a1.len() - 1]);
                assert(is_proposal(t.actions@[a1.len() - 1], call_id, calls@[i as int]));
                assert(self.calls@[old(self).calls@.len() + i] == self.calls@.last());
                assert forall|k: int| 0 <= k < e0.calls@.len() implies #[trigger] self.calls@[k]
                    == e0.calls@[k] by {}
                assert forall|k: int| 0 <= k < i + 1 implies #[trigger] call_dispatched(
                    *old(self),
                    *self,
                    t.actions@,
                    calls@[k],
                    k,
                ) by {
                    if k < i {
                        lemma_dispatched_kept(*old(self), e0, *self, a0, t.actions@, calls@[k], k);
                    }
                }
            }
            i = i + 1;
        }
        assert(calls@.take(n as int) =~= calls@);
    }

    fn on_tool_terminal(&mut self, id: EffectId, outcome: ToolOutcome, output: &str, t: &mut Transition)
        requires
            batch_ok(old(t).actions@, old(self).next_seq as int),
            old(self).next_seq + 2 <= u64::MAX,
            old(self).next_effect + 1 <= u64::MAX,
            old(t).actions@.len() == 0,
        ensures
            final(self).grew(*old(self), 2, 1, 0),
            final(self).kept(*old(self), final(t).actions@, old(t).actions@),
            final(self).persisted == old(self).persisted,
            old(self).phase == Phase::Failed ==> final(self).phase == Phase::Failed,
            !old(self).has_open_call(id) ==> *final(self) == *old(self) && final(t).actions@
                == old(t).actions@,
            old(self).has_open_call(id) ==> tool_answered(
                *old(self),
                *final(self),
                final(t).actions@,
                id,
                outcome,
                output.spec_bytes(),
            ),
            grows_from(final(t).actions@, old(t).actions@),
    {
        proof {
            lemma_grows_step(t.actions@, t.actions@);
        }
        let index = match self.find_call(id, true) {
            Some(i) => i,
            None => {
                return;
            },
        };
        let ghost t0 = t.actions@;
        self.finished.push(id);
        // Full output goes to the log; the window gets the capped excerpt
        // with the log pointer (reversible offload).
        let full_seq = self.next_seq;
        let bytes = output.as_bytes_vec();
        self.commit(RecordKind::EffectOutcome, Some(id), RecordPayload::EffectOutcome(bytes), t);
        let ghost tc = t.actions@;
        let text = Capped::<ToolResultCap>::tool_result(
            output,
            self.config.budgets.tool_result_bytes,
            full_seq,
        );
        let slot_call = self.calls[index].call.clone();
        let slot_id = self.calls[index].id;
        let waiting = self.calls[index].awaiting_approval;
        self.calls.set(
            index,
            CallSlot { id: slot_id, call: slot_call, done: true, awaiting_approval: waiting },
        );
        self.tail.push(TailItem::ToolResult { call: id, text });
        let ghost tail1 = self.tail@;
        assert(tail1.drop_last() =~= old(self).tail@);
        let ended = Event::ToolTerminal { call: id, outcome };
        self.publish(ended, t);
        let ghost t1 = t.actions@;
        assert(t1[t1.len() - 1] == CoreAction::Publish(ended));
        self.maybe_resample(t);
        assert(t.actions@[t1.len() - 1] == CoreAction::Publish(ended));
        proof {
            lemma_grows_trans(t0, tc, t1);
            lemma_grows_trans(t0, t1, t.actions@);
        }
    }

    /// The slot for call `id`; with `open_only`, only a slot still running.
    fn find_call(&self, id: EffectId, open_only: bool) -> (r: Option<usize>)
        ensures
            r matches Some(i) ==> i < self.calls@.len() && slot_matches(
                self.calls@[i as int],
                id,
                open_only,
            ),
            forall|j: int|
                0 <= j < (match r {
                    Some(i) => i as int,
                    None => self.calls@.len() as int,
                }) ==> !slot_matches(#[trigger] self.calls@[j], id, open_only),
    {
        let mut index: usize = 0;
        while index < self.calls.len()
            invariant
                index <= self.calls@.len(),
                forall|j: int| 0 <= j < index ==> !slot_matches(#[trigger] self.calls@[j], id, open_only),
            decreases self.calls@.len() - index,
        {
            if self.calls[index].id == id && (!open_only || !self.calls[index].done) {
                return Some(index);
            }
            index = index + 1;
        }
        None
    }

    fn same_shape(&self, name: &String, args: &String) -> (r: bool)
        ensures
            r == (self.last_call_shape matches Some((n, a)) && n@ == name@ && a@ == args@),
    {
        match &self.last_call_shape {
            Some((n, a)) => *n == *name && *a == *args,
            None => false,
        }
    }

    fn on_model_terminal(&mut self, id: EffectId, outcome: ModelOutcome, t: &mut Transition)
        requires
            batch_ok(old(t).actions@, old(self).next_seq as int),
            old(self).next_seq + 2 + 2 * outcome.tool_calls@.len() <= u64::MAX,
            old(self).next_effect + 1 + outcome.tool_calls@.len() <= u64::MAX,
            old(self).next_request + outcome.tool_calls@.len() <= u64::MAX,
            old(self).identical_run < u32::MAX,
        ensures
            old(self).next_seq <= final(self).next_seq <= old(self).next_seq + 2 + 2
                * outcome.tool_calls@.len(),
            final(self).epoch == old(self).epoch,
            final(self).kept(*old(self), final(t).actions@, old(t).actions@),
            final(self).persisted == old(self).persisted,
            old(self).phase == Phase::Failed ==> final(self).phase == Phase::Failed,
            old(self).phase != Phase::AwaitingModel(id) ==> *final(self) == *old(self)
                && final(t).actions@ == old(t).actions@,
            old(self).phase == Phase::AwaitingModel(id) ==> model_answered(
                *old(self),
                *final(self),
                final(t).actions@,
                outcome,
            ),
    {
        let awaiting = match self.phase {
            Phase::AwaitingModel(m) => m == id,
            _ => false,
        };
        if !awaiting {
            return;
        }
        let ghost f0 = self.finished@;
        self.finished.push(id);
        proof {
            lemma_push_keeps(f0, id);
        }
        match outcome.usage {
            Some(usage) => self.tokens.record_provider_usage(usage.prompt_tokens, usage.prompt_bytes),
            None => {},
        }
        if outcome.text.unicode_len() > 0 {
            self.tail.push(TailItem::Message(concat("[assistant] ", outcome.text.as_str())));
        }
        let ghost t_msg = self.tail@;
        proof {
            assert(t_msg.take(old(self).tail@.len() as int) =~= old(self).tail@);
        }
        if outcome.tool_calls.len() == 0 {
            self.end_turn(TurnEnd::Completed, t);
            return;
        }
        // Stationarity guard: a run of identical proposals ends the turn
        // instead of looping forever.
        let first_name = outcome.tool_calls[0].name.clone();
        let first_args = outcome.tool_calls[0].args_json.clone();
        if self.same_shape(&first_name, &first_args) {
            self.identical_run = self.identical_run + 1;
        } else {
            self.identical_run = 1;
            self.last_call_shape = Some((first_name, first_args));
        }
        assert(self.identical_run == next_run(*old(self), outcome.tool_calls@[0]));
        if self.identical_run >= self.config.stationarity.identical_calls as u32 {
            self.publish(
                Event::Error(
                    ErrorEvent::new(
                        ErrorCode::Internal,
                        "stationarity guard: identical tool-call run".to_owned(),
                        None,
                    ),
                ),
                t,
            );
            self.end_turn(TurnEnd::Failed, t);
            return;
        }
        self.phase = Phase::RunningTools;
        self.calls.clear();
        let ghost e1 = *self;
        self.dispatch_tool_calls(&outcome.tool_calls, t);
        proof {
            let n0 = old(self).tail@.len() as int;
            assert(self.tail@.take(n0) =~= t_msg.take(n0)) by {
                assert(self.tail@.take(t_msg.len() as int) == t_msg);
                assert forall|q: int| 0 <= q < n0 implies self.tail@[q] == t_msg[q] by {
                    assert(self.tail@.take(t_msg.len() as int)[q] == t_msg[q]);
                }
            }
            if t_msg.len() > n0 {
                assert(self.tail@.take(t_msg.len() as int)[n0] == t_msg[n0]);
            }
        }
        let ghost e2 = *self;
        let ghost a2 = t.actions@;
        self.maybe_resample(t);
        proof {
            assert(grows_from(t.actions@, a2)) by {
                assert forall|q: int| 0 <= q < a2.len() implies #[trigger] extends(
                    a2[q],
                    t.actions@[q],
                ) by {
                    if t.actions@ != a2 {
                        assert(t.actions@.drop_last()[q] == t.actions@[q]);
                    }
                }
            }
            assert forall|q: int| 0 <= q < outcome.tool_calls@.len() implies #[trigger] call_announced(
                *old(self),
                t.actions@,
                outcome.tool_calls@[q],
                q,
            ) by {
                assert(call_dispatched(e1, e2, a2, outcome.tool_calls@[q], q));
                lemma_announced(e1, e2, a2, t.actions@, outcome.tool_calls@[q], q);
            }
        }
    }

    fn dropped_note(id: EffectId, epoch: TurnEpoch) -> (r: Vec<u8>)
        ensures
            r@ == encode_utf8(
                "dropped completion: effect "@ + decimal(id.0 as nat) + " epoch "@ + decimal(
                    epoch.0 as nat,
                ),
            ),
    {
        let mut note = "dropped completion: effect ".to_owned();
        push_decimal(&mut note, id.0);
        note.append(" epoch ");
        push_decimal(&mut note, epoch.0);
        note.as_str().as_bytes_vec()
    }

    fn on_finished(&mut self, id: EffectId, epoch: TurnEpoch, terminal: EffectTerminal, t: &mut Transition)
        requires
            batch_ok(old(t).actions@, old(self).next_seq as int),
            old(self).next_seq + 2 + 2 * proposed_calls(
                CoreInput::EffectFinished { id, epoch, terminal },
            ) <= u64::MAX,
            old(self).next_effect + 1 + proposed_calls(
                CoreInput::EffectFinished { id, epoch, terminal },
            ) <= u64::MAX,
            old(self).next_request + proposed_calls(
                CoreInput::EffectFinished { id, epoch, terminal },
            ) <= u64::MAX,
            old(self).identical_run < u32::MAX,
            old(t).actions@.len() == 0,
        ensures
            final(self).kept(*old(self), final(t).actions@, old(t).actions@),
            final(self).epoch == old(self).epoch,
            final(self).persisted == old(self).persisted,
            old(self).phase == Phase::Failed ==> final(self).phase == Phase::Failed,
            epoch != old(self).epoch || old(self).finished@.contains(id) ==> {
                &&& final(self).same_but_seq(*old(self))
                &&& final(self).next_seq == old(self).next_seq + 1
                &&& final(t).actions@.len() == old(t).actions@.len() + 1 || (old(t).actions@.len() > 0
                    && old(t).actions@.last() is Commit)
                &&& committed(final(t).actions@).len() == committed(old(t).actions@).len() + 1
                &&& committed(final(t).actions@).last().kind == RecordKind::EffectOutcome
                &&& committed(final(t).actions@).last().txn == Some(id)
            },
            epoch == old(self).epoch && !old(self).finished@.contains(id) ==> completion_answered(
                *old(self),
                *final(self),
                final(t).actions@,
                id,
                terminal,
            ),
    {
        // Exactly-once ledger and epoch discipline: late, duplicate, or
        // stale-epoch completions are dropped with a trace.
        if epoch != self.epoch || contains_id(&self.finished, id) {
            let note = Self::dropped_note(id, epoch);
            self.commit(RecordKind::EffectOutcome, Some(id), RecordPayload::EffectOutcome(note), t);
            return;
        }
        match terminal {
            EffectTerminal::Model(outcome) => self.on_model_terminal(id, outcome, t),
            EffectTerminal::Tool { outcome, output } => {
                self.on_tool_terminal(id, outcome, output.as_str(), t);
            },
            EffectTerminal::Failed { error, message } => {
                self.finished.push(id);
                let ev = Event::Error(ErrorEvent::new(error, message, None));
                let ghost published = ev;
                self.publish(ev, t);
                let ghost t1 = t.actions@;
                assert(t1[t1.len() - 1] == CoreAction::Publish(published));
                // A failed root model call ends the turn; a failed tool
                // resolves its slot like a failed tool outcome.
                let was_model = match self.phase {
                    Phase::AwaitingModel(m) => m == id,
                    _ => false,
                };
                if was_model {
                    self.end_turn(TurnEnd::Failed, t);
                    proof {
                        lemma_carries_kept(t1, t.actions@, CoreAction::Publish(published));
                    }
                } else {
                    if let Some(index) = self.find_call(id, false) {
                        let slot_call = self.calls[index].call.clone();
                        let waiting = self.calls[index].awaiting_approval;
                        self.calls.set(
                            index,
                            CallSlot { id, call: slot_call, done: true, awaiting_approval: waiting },
                        );
                        let text = self.synthetic_result("[tool failed]");
                        self.tail.push(TailItem::ToolResult { call: id, text });
                        self.maybe_resample(t);
                        proof {
                            lemma_carries_kept(t1, t.actions@, CoreAction::Publish(published));
                        }
                    }
                }
            },
        }
    }
}


impl Engine {
    fn on_approval(&mut self, request: SubmissionId, verdict: ApprovalVerdict, t: &mut Transition)
        requires
            batch_ok(old(t).actions@, old(self).next_seq as int),
            old(self).next_seq + 1 <= u64::MAX,
            old(self).next_effect + 1 <= u64::MAX,
        ensures
            final(self).grew(*old(self), 1, 1, 0),
            final(self).kept(*old(self), final(t).actions@, old(t).actions@),
            final(self).persisted == old(self).persisted,
            old(self).phase == Phase::Failed ==> final(self).phase == Phase::Failed,
            !old(self).awaits(request) ==> *final(self) == *old(self) && final(t).actions@
                == old(t).actions@,
            grows_from(final(t).actions@, old(t).actions@),
            forall|i: int|
                #[trigger] old(self).awaits_at(request, i) ==> approval_answered(
                    *old(self),
                    *final(self),
                    final(t).actions@,
                    i,
                    verdict == ApprovalVerdict::Approve,
                ),
    {
        let mut index: usize = 0;
        let mut found: Option<usize> = None;
        while index < self.calls.len()
            invariant
                index <= self.calls@.len(),
                found matches Some(i) ==> i < index && self.awaits_at(request, i as int),
                found is None ==> forall|j: int|
                    0 <= j < index ==> (#[trigger] self.calls@[j]).awaiting_approval != Some(
                        request,
                    ),
            decreases self.calls@.len() - index,
        {
            if found.is_none() && self.calls[index].awaiting_approval == Some(request) {
                found = Some(index);
            }
            index = index + 1;
        }
        proof {
            lemma_grows_step(t.actions@, t.actions@);
        }
        let index = match found {
            Some(i) => i,
            None => {
                return;
            },
        };
        proof {
            assert forall|i: int| #[trigger] self.awaits_at(request, i) implies i == index by {
                if i < index {
                    assert(self.calls@[i].awaiting_approval != Some(request));
                }
                if i > index {
                    assert(self.calls@[index as int].awaiting_approval != Some(request));
                }
            }
        }
        let ghost t0 = t.actions@;
        let id = self.calls[index].id;
        let call = self.calls[index].call.clone();
        let done = self.calls[index].done;
        // Anything but an explicit approval denies: unknown verdicts fail
        // closed.
        if verdict == ApprovalVerdict::Approve {
            let started = call.clone();
            self.calls.set(index, CallSlot { id, call, done, awaiting_approval: None });
            let epoch = self.epoch;
            self.publish(Event::ToolStarted { call: id }, t);
            let ghost t1 = t.actions@;
            push_action(t, CoreAction::StartEffect { id, epoch, spec: EffectSpec::Tool(started) });
            assert(t.actions@[t1.len() - 1] == CoreAction::Publish(Event::ToolStarted { call: id }));
            proof {
                lemma_grows_trans(t0, t1, t.actions@);
            }
        } else {
            self.calls.set(index, CallSlot { id, call, done: true, awaiting_approval: None });
            self.finished.push(id);
            let ended = Event::ToolTerminal { call: id, outcome: ToolOutcome::Denied };
            self.publish(ended, t);
            let ghost t1 = t.actions@;
            let text = self.synthetic_result("[denied by operator]");
            self.tail.push(TailItem::ToolResult { call: id, text });
            assert(self.tail@.drop_last() =~= old(self).tail@);
            self.maybe_resample(t);
            assert(t.actions@[t1.len() - 1] == CoreAction::Publish(ended));
            proof {
                lemma_grows_trans(t0, t1, t.actions@);
            }
        }
    }

    fn on_interrupt(&mut self, t: &mut Transition)
        requires
            batch_ok(old(t).actions@, old(self).next_seq as int),
            old(self).next_seq + 1 <= u64::MAX,
        ensures
            final(self).grew(*old(self), 1, 0, 0),
            final(self).kept(*old(self), final(t).actions@, old(t).actions@),
            final(self).persisted == old(self).persisted,
            old(self).phase == Phase::Failed ==> final(self).phase == Phase::Failed,
            grows_from(final(t).actions@, old(t).actions@),
            old(self).mid_turn() ==> interrupted(*old(self), *final(self), final(t).actions@),
            !old(self).mid_turn() ==> *final(self) == *old(self) && final(t).actions@ == old(
                t,
            ).actions@,
    {
        match self.phase {
            Phase::Idle | Phase::Draining | Phase::Failed => {
                return;
            },
            _ => {},
        }
        let ghost t0 = t.actions@;
        self.cancel_all(t);
        let ghost t1 = t.actions@;
        let epoch = self.epoch;
        let ended = Event::TurnEnded { epoch, reason: TurnEnd::Interrupted };
        self.publish(ended, t);
        self.phase = Phase::Idle;
        proof {
            lemma_grows_trans(t0, t1, t.actions@);
            assert(t.actions@[t.actions@.len() - 1] == CoreAction::Publish(ended));
            assert forall|id: EffectId| old(self).in_flight(id) implies carries(
                t.actions@,
                CoreAction::CancelEffect { id },
            ) by {
                lemma_carries_kept(t1, t.actions@, CoreAction::CancelEffect { id });
            }
        }
    }

    fn on_user_input(&mut self, text: String, correlates: Option<SubmissionId>, t: &mut Transition)
        requires
            batch_ok(old(t).actions@, old(self).next_seq as int),
            old(self).next_seq + 1 <= u64::MAX,
            old(self).next_effect + 1 <= u64::MAX,
            old(self).epoch.0 < u64::MAX,
        ensures
            old(self).next_seq <= final(self).next_seq <= old(self).next_seq + 1,
            final(self).kept(*old(self), final(t).actions@, old(t).actions@),
            final(self).persisted == old(self).persisted,
            old(self).phase == Phase::Failed ==> final(self).phase == Phase::Failed,
            old(self).phase == Phase::Idle ==> final(self).epoch == TurnEpoch(
                (old(self).epoch.0 + 1) as u64,
            ),
            old(self).phase != Phase::Idle ==> final(self).epoch == old(self).epoch,
            grows_from(final(t).actions@, old(t).actions@),
            old(self).phase == Phase::Idle ==> turn_begun(
                *old(self),
                *final(self),
                final(t).actions@,
                text@,
                correlates,
            ),
            old(self).phase != Phase::Idle ==> interjected(*old(self), *final(self), text@)
                && final(t).actions@ == old(t).actions@,
    {
        proof {
            lemma_grows_step(t.actions@, t.actions@);
        }
        match self.phase {
            Phase::Idle => {},
            _ => {
                // Mid-turn user input is an interjection: it joins the tail
                // and reaches the model at the next sampling point.
                self.tail.push(TailItem::Message(concat("[user] ", text.as_str())));
                assert(self.tail@.drop_last() =~= old(self).tail@);
                return;
            },
        }
        self.epoch = TurnEpoch(self.epoch.0 + 1);
        self.finished.clear();
        self.identical_run = 0;
        self.last_call_shape = None;
        self.last_user_query = text;
        let epoch = self.epoch;
        let ghost t0 = t.actions@;
        self.publish(Event::TurnStarted { epoch, correlates }, t);
        let ghost t1 = t.actions@;
        self.start_model_call(t);
        proof {
            lemma_grows_step(t1, t.actions@);
            lemma_grows_trans(t0, t1, t.actions@);
            assert(t1[t1.len() - 1] == CoreAction::Publish(Event::TurnStarted { epoch, correlates }));
            assert(t.actions@[t1.len() - 1] == t1[t1.len() - 1]);
        }
    }

    fn on_op(&mut self, submission: Submission, t: &mut Transition)
        requires
            batch_ok(old(t).actions@, old(self).next_seq as int),
            old(self).config.wf(),
            input_wf(CoreInput::ClientOp(submission)),
            old(self).next_seq + 4 <= u64::MAX,
            old(self).next_effect + 2 <= u64::MAX,
            old(self).epoch.0 < u64::MAX,
            old(t).actions@.len() == 0,
        ensures
            final(self).config.wf(),
            old(self).phase != Phase::Failed ==> opens_with_accepted(final(t).actions@, submission),
            old(self).phase != Phase::Failed ==> op_answered(
                *old(self),
                *final(self),
                final(t).actions@,
                submission,
            ),
            batch_ok(final(t).actions@, final(self).next_seq as int),
            final(self).next_seq - committed(final(t).actions@).len() == old(self).next_seq
                - committed(old(t).actions@).len(),
            old(self).next_seq <= final(self).next_seq <= old(self).next_seq + 2,
            final(self).persisted == old(self).persisted,
            old(self).phase == Phase::Failed ==> *final(self) == *old(self) && final(t).actions@
                == old(t).actions@,
            (submission.op is Interrupt && old(self).mid_turn()) ==> interrupted(
                *old(self),
                *final(self),
                final(t).actions@,
            ),
    {
        match self.phase {
            Phase::Failed => {
                return;
            },
            _ => {},
        }
        let ghost e0 = *self;
        let accepted = submission.clone();
        let ghost acc = accepted;
        self.commit(RecordKind::AcceptedOp, None, RecordPayload::AcceptedOp(accepted), t);
        let ghost e1 = *self;
        let ghost t1 = t.actions@;
        proof {
            assert(t1.drop_last() =~= Seq::<CoreAction>::empty());
            assert(committed(t1.drop_last()) =~= Seq::<Record>::empty());
            if let CoreAction::Commit(rs) = t1[0] {
                assert(committed(t1) =~= rs@);
            }
            assert(opens_with_accepted(t1, submission));
            assert forall|id: EffectId| e0.tool_running(id) implies e1.tool_running(id) by {
                let i = choose|i: int|
                    0 <= i < e0.calls@.len() && (#[trigger] e0.calls@[i]).id == id
                        && !e0.calls@[i].done && e0.calls@[i].awaiting_approval is None;
                assert(e1.calls@[i] == e0.calls@[i]);
            }
            assert forall|id: EffectId| e0.in_flight(id) implies self.in_flight(id) by {
                if self.phase != Phase::AwaitingModel(id) {
                    let i = choose|i: int|
                        0 <= i < e0.calls@.len() && (#[trigger] e0.calls@[i]).id == id
                            && !e0.calls@[i].done && e0.calls@[i].awaiting_approval is None;
                    assert(self.calls@[i] == e0.calls@[i]);
                }
            }
        }
        let id = submission.id;
        match submission.op {
            Op::UserInput { text } => {
                self.on_user_input(text, Some(id), t);
            },
            Op::Interject { text } => {
                self.tail.push(TailItem::Message(concat("[user] ", text.as_str())));
                proof {
                    assert(self.tail@.drop_last() =~= e1.tail@);
                    lemma_grows_step(t1, t.actions@);
                }
            },
            Op::Approve { request, verdict } => {
                self.on_approval(request, verdict, t);
                proof {
                    assert forall|i: int| #[trigger] e0.awaits_at(request, i) implies approval_answered(
                        e0,
                        *self,
                        t.actions@,
                        i,
                        verdict == ApprovalVerdict::Approve,
                    ) by {
                        assert(e1.awaits_at(request, i));
                    }
                    if !e0.awaits(request) {
                        assert(!e1.awaits(request));
                    }
                }
            },
            Op::Interrupt => {
                self.on_interrupt(t);
            },
            Op::ConfigPatch { patch } => {
                let copy = patch.clone();
                self.commit(RecordKind::ConfigPatch, None, RecordPayload::ConfigPatch(copy), t);
                self.config.apply(patch);
                self.compaction.reset_breaker();
            },
            Op::Shutdown => {
                self.phase = Phase::Draining;
                self.publish(Event::ShuttingDown, t);
                let ghost t2 = t.actions@;
                assert(t2[t2.len() - 1] == CoreAction::Publish(Event::ShuttingDown));
                let ghost e2 = *self;
                self.cancel_all(t);
                proof {
                    lemma_carries_kept(t2, t.actions@, CoreAction::Publish(Event::ShuttingDown));
                    lemma_grows_trans(t1, t2, t.actions@);
                    assert forall|x: EffectId| e0.tool_running(x) implies carries(
                        t.actions@,
                        CoreAction::CancelEffect { id: x },
                    ) by {
                        let i = choose|i: int|
                            0 <= i < e0.calls@.len() && (#[trigger] e0.calls@[i]).id == x
                                && !e0.calls@[i].done && e0.calls@[i].awaiting_approval is None;
                        assert(e2.calls@[i] == e0.calls@[i]);
                        assert(e2.tool_running(x));
                    }
                }
            },
        }
        proof {
            lemma_opens_kept(t1, t.actions@, submission);
        }
    }

    /// Handles one input, returning the action batch.
    ///
    /// Every record the batch commits is valid and numbered consecutively
    /// from the engine's sequence counter, and every published event is
    /// carried by a record committed earlier in the same batch. A client
    /// submission is logged first and then acted on as `op_answered` says.
    /// A completion in the current epoch is taken once, as
    /// `completion_answered` says; late, duplicate, or stale-epoch
    /// completions are dropped with a single trace record and change nothing
    /// else. After the appender fails, the engine only drains: client
    /// submissions are ignored.
    pub fn handle(&mut self, input: CoreInput) -> (r: Transition)
        requires
            old(self).inv(),
            input_wf(input),
            old(self).room(proposed_calls(input)),
        ensures
            final(self).inv(),
            numbered_below(committed(r.actions@), final(self).seq_counter() as int),
            final(self).seq_counter() == old(self).seq_counter() + committed(r.actions@).len(),
            !(input is PersistFailed) ==> publish_backed(r.actions@),
            match input {
                CoreInput::Persisted { up_to_seq } => {
                    &&& r.actions@.len() == 0
                    &&& final(self).watermark() == if up_to_seq > old(self).watermark() {
                        up_to_seq
                    } else {
                        old(self).watermark()
                    }
                    &&& final(self).same_but_watermark(*old(self))
                },
                CoreInput::PersistFailed { at_seq, message } => persist_failure_answered(
                    *old(self),
                    *final(self),
                    r.actions@,
                    at_seq,
                    message@,
                ),
                CoreInput::ClientOp(s) => {
                    &&& old(self).is_failed() ==> r.actions@.len() == 0 && *final(self)
                        == *old(self)
                    &&& !old(self).is_failed() ==> opens_with_accepted(r.actions@, s)
                    &&& !old(self).is_failed() ==> op_answered(
                        *old(self),
                        *final(self),
                        r.actions@,
                        s,
                    )
                },
                CoreInput::EffectFinished { id, epoch, terminal } => {
                    &&& (epoch != old(self).turn_epoch() || old(self).ledger().contains(id)) ==> {
                        &&& final(self).same_but_seq(*old(self))
                        &&& r.actions@.len() == 1
                        &&& committed(r.actions@).len() == 1
                        &&& committed(r.actions@)[0].kind == RecordKind::EffectOutcome
                        &&& committed(r.actions@)[0].txn == Some(id)
                    }
                    &&& (epoch == old(self).turn_epoch() && !old(self).ledger().contains(id))
                        ==> completion_answered(*old(self), *final(self), r.actions@, id, terminal)
                },
            },
    {
        let mut t = Transition::default();
        proof {
            assert(committed(t.actions@) =~= Seq::<Record>::empty());
        }
        match input {
            CoreInput::ClientOp(submission) => self.on_op(submission, &mut t),
            CoreInput::EffectFinished { id, epoch, terminal } => self.on_finished(
                id,
                epoch,
                terminal,
                &mut t,
            ),
            CoreInput::Persisted { up_to_seq } => {
                if up_to_seq > self.persisted {
                    self.persisted = up_to_seq;
                }
            },
            CoreInput::PersistFailed { at_seq, message } => {
                // Cancel while the phase still names the pending effects;
                // only then latch Failed.
                // The log no longer takes records: the error is published
                // without a carrying commit.
                let ghost e0 = *self;
                self.cancel_all(&mut t);
                self.phase = Phase::Failed;
                let mut text = "append failed at seq ".to_owned();
                push_decimal(&mut text, at_seq);
                text.append(": ");
                text.append(message.as_str());
                let ghost t1 = t.actions@;
                let ev = Event::Error(ErrorEvent::new(ErrorCode::StoreIo, text, None));
                proof {
                    lemma_committed_push(t1, CoreAction::Publish(ev));
                }
                t.actions.push(CoreAction::Publish(ev));
                proof {
                    assert(t1.subrange(0, 0) =~= Seq::<CoreAction>::empty());
                    assert forall|k: int| 0 <= k < t.actions@.len() - 1 implies cancels_in_flight(
                        e0,
                        #[trigger] t.actions@[k],
                    ) by {
                        assert(t.actions@[k] == t1[k]);
                    }
                    assert forall|id: EffectId| e0.in_flight(id) implies carries(
                        t.actions@,
                        CoreAction::CancelEffect { id },
                    ) by {
                        let k = choose|k: int| 0 <= k < t1.len() && #[trigger] t1[k] == CoreAction::CancelEffect { id };
                        assert(t.actions@[k] == t1[k]);
                    }
                }
            },
        }
        t
    }
}

} // verus!
