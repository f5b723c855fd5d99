//! The query continuation executor: a pure, suspendable interpreter over
//! the typed IR.
//!
//! The executor never blocks and never performs I/O. Verbs that need
//! transcript data emit a [`StepOutcome::NeedPages`] request; `ask` and
//! `ask-each` emit [`StepOutcome::NeedAsk`]; the driver supplies results
//! through [`Executor::provide_pages`] and [`Executor::provide_ask`] and steps
//! again. Every line binds a typed value to its one-based `%N` slot; an
//! aggregate-meter exhaustion binds an inline budget error and the script
//! continues, while query-level exhaustion terminates the query.

use vstd::prelude::*;
use vstd::string::StrSliceExecFns;
use vstd::utf8::encode_utf8;

use crate::caps::{byte_prefix, capped_chars, floor_boundary, head_excerpt, lemma_floor_boundary};
use crate::protocol::budgets::{BudgetKind, Budgets};
use crate::protocol::error::VerbErrorCause;
use crate::rlm::ir::{BoundValue, By, FinalValue, Instr, Out, Query, Sel};
use crate::rlm::ir::Binding;
use crate::text::{chars_of, decimal, decimal_string};

verus! {

/// One transcript record rendered to text for the executor.
#[derive(Debug, PartialEq, Eq)]
pub struct PageRecord {
    /// The record's log sequence.
    pub seq: u64,
    /// The record rendered to a single text line.
    pub text: String,
}

impl Clone for PageRecord {
    fn clone(&self) -> (res: Self)
        ensures
            res == *self,
    {
        PageRecord { seq: self.seq, text: self.text.clone() }
    }
}

/// A bounded page of rendered records with an optional continuation cursor.
#[derive(Debug, PartialEq, Eq)]
pub struct Page {
    /// Records in this page, in sequence order.
    pub records: Vec<PageRecord>,
    /// The cursor to resume from, or `None` when the selection is exhausted.
    pub next_cursor: Option<u64>,
}

/// A store page request the driver must satisfy.
#[derive(Clone, Copy, Debug, PartialEq, Eq)]
pub struct PageRequest {
    /// The selection whose records are wanted.
    pub sel: Sel,
    /// Resume cursor, `None` for the first page of this selection.
    pub cursor: Option<u64>,
}

/// One sub-model call the driver must run.
#[derive(Debug, PartialEq, Eq)]
pub struct AskRequest {
    /// Index within the batch (0 for a plain `ask`; partition index for
    /// `ask-each`), used to rejoin out-of-order results.
    pub index: u32,
    /// The question posed to the sub-model.
    pub question: String,
    /// The rendered selection text supplied as context.
    pub context: String,
    /// Deterministic self-consistency sample count, when set.
    pub sample_k: Option<u8>,
}

/// One resolved sub-model answer.
#[derive(Debug, PartialEq, Eq)]
pub struct AskResult {
    /// The [`AskRequest::index`] this answers.
    pub index: u32,
    /// The sub-model's answer text (the executor caps it).
    pub answer: String,
}

/// A typed value bound to a `%N` slot.
#[derive(Debug, PartialEq, Eq)]
pub enum Bound {
    /// A selection of rendered records.
    Records(Vec<PageRecord>),
    /// A partition into chunks of records.
    Chunks(Vec<Vec<PageRecord>>),
    /// An integer count.
    Count(u64),
    /// A capped sub-model digest.
    Digest(String),
    /// Capped digests, ordered by partition index.
    DigestList(Vec<String>),
    /// An inline verb error (the script continues).
    Error(VerbErrorCause),
}

/// A bound value with its vectors and strings as sequences.
pub enum BoundSpec {
    /// Records.
    Records(Seq<PageRecord>),
    /// Chunks of records.
    Chunks(Seq<Seq<PageRecord>>),
    /// A count.
    Count(u64),
    /// A digest.
    Digest(Seq<char>),
    /// Digests in partition order.
    DigestList(Seq<Seq<char>>),
    /// An inline error.
    Error(VerbErrorCause),
}

impl View for Bound {
    type V = BoundSpec;

    open spec fn view(&self) -> BoundSpec {
        match self {
            Bound::Records(v) => BoundSpec::Records(v@),
            Bound::Chunks(v) => BoundSpec::Chunks(v@.map_values(|c: Vec<PageRecord>| c@)),
            Bound::Count(n) => BoundSpec::Count(*n),
            Bound::Digest(d) => BoundSpec::Digest(d@),
            Bound::DigestList(l) => BoundSpec::DigestList(l@.map_values(|s: String| s@)),
            Bound::Error(c) => BoundSpec::Error(*c),
        }
    }
}

/// The output kind a bound value declares, or `None` for an error.
pub open spec fn bound_spec_out(b: BoundSpec) -> Option<Out> {
    match b {
        BoundSpec::Records(_) => Some(Out::Records),
        BoundSpec::Chunks(_) => Some(Out::Chunks),
        BoundSpec::Count(_) => Some(Out::Count),
        BoundSpec::Digest(_) => Some(Out::Digest),
        BoundSpec::DigestList(_) => Some(Out::DigestList),
        BoundSpec::Error(_) => None,
    }
}

/// An ask request with its strings as sequences.
pub struct AskSpec {
    /// Batch index.
    pub index: u32,
    /// Question.
    pub question: Seq<char>,
    /// Rendered context.
    pub context: Seq<char>,
    /// Sample count.
    pub sample_k: Option<u8>,
}

impl View for AskRequest {
    type V = AskSpec;

    open spec fn view(&self) -> AskSpec {
        AskSpec {
            index: self.index,
            question: self.question@,
            context: self.context@,
            sample_k: self.sample_k,
        }
    }
}

/// Ask requests as plain values.
pub open spec fn ask_views(v: Seq<AskRequest>) -> Seq<AskSpec> {
    v.map_values(|a: AskRequest| a@)
}

/// What one [`Executor::step`] produced.
#[derive(Debug, PartialEq, Eq)]
pub enum StepOutcome {
    /// The current line needs a store page before it can proceed.
    NeedPages(PageRequest),
    /// The current line needs these sub-model answers (bounded batch).
    NeedAsk(Vec<AskRequest>),
    /// A line completed; its value is bound to `slot` (one-based).
    Line {
        /// The one-based slot the value was bound to.
        slot: u32,
        /// The bound value (may be an inline error).
        bound: Bound,
    },
    /// The query terminated; `answer` is the final answer.
    Done {
        /// The final answer.
        answer: String,
    },
    /// A partial `ask-each` batch was accepted; more results are still
    /// outstanding, and no new requests are dispatched.
    AwaitingMore,
    /// The query terminated on a query-level budget or structural error.
    Failed {
        /// Which budget or condition ended it.
        cause: VerbErrorCause,
    },
}

/// A step outcome with its vectors and strings as sequences.
pub enum StepSpec {
    /// A page request.
    NeedPages(PageRequest),
    /// Ask requests.
    NeedAsk(Seq<AskSpec>),
    /// A bound line.
    Line {
        /// One-based slot.
        slot: u32,
        /// Bound value.
        bound: BoundSpec,
    },
    /// The final answer.
    Done {
        /// Answer text.
        answer: Seq<char>,
    },
    /// Waiting for more ask results.
    AwaitingMore,
    /// Query-level failure.
    Failed {
        /// Cause.
        cause: VerbErrorCause,
    },
}

impl View for StepOutcome {
    type V = StepSpec;

    open spec fn view(&self) -> StepSpec {
        match self {
            StepOutcome::NeedPages(r) => StepSpec::NeedPages(*r),
            StepOutcome::NeedAsk(v) => StepSpec::NeedAsk(ask_views(v@)),
            StepOutcome::Line { slot, bound } => StepSpec::Line { slot: *slot, bound: bound@ },
            StepOutcome::Done { answer } => StepSpec::Done { answer: answer@ },
            StepOutcome::AwaitingMore => StepSpec::AwaitingMore,
            StepOutcome::Failed { cause } => StepSpec::Failed { cause: *cause },
        }
    }
}

/// The per-query meter set, each counter checked against its budget.
#[derive(Clone, Copy, Debug, PartialEq, Eq, Structural)]
pub struct Meters {
    /// The budgets the counters are checked against.
    pub budgets: Budgets,
    /// Verbs begun.
    pub verbs: u16,
    /// Sub-model calls requested.
    pub subcalls: u16,
    /// Chunks produced by partitions.
    pub partitions: u16,
    /// Bytes selected into sub-model calls.
    pub selected_bytes: u32,
    /// Store pages scanned.
    pub scanned_pages: u32,
    /// Store bytes scanned.
    pub scanned_bytes: u64,
    /// Store page effects issued.
    pub page_effects: u32,
}

/// `x` saturated to `u16`.
pub open spec fn sat16(x: int) -> u16 {
    if x <= u16::MAX {
        x as u16
    } else {
        u16::MAX
    }
}

/// `x` saturated to `u32`.
pub open spec fn sat32(x: int) -> u32 {
    if x <= u32::MAX {
        x as u32
    } else {
        u32::MAX
    }
}

/// `x` saturated to `u64`.
pub open spec fn sat64(x: int) -> u64 {
    if x <= u64::MAX {
        x as u64
    } else {
        u64::MAX
    }
}

/// The meters after charging `amount` to `kind`, and whether the meter
/// stayed within its budget. Charges saturate, which can only push a meter
/// further over its budget, never falsely under it.
pub open spec fn charged(m: Meters, kind: BudgetKind, amount: u64) -> (Meters, bool) {
    match kind {
        BudgetKind::ScannedPages => {
            let v = sat32(m.scanned_pages + sat32(amount as int));
            (Meters { scanned_pages: v, ..m }, v <= m.budgets.scanned_pages)
        },
        BudgetKind::ScannedBytes => {
            let v = sat64(m.scanned_bytes + amount);
            (Meters { scanned_bytes: v, ..m }, v <= m.budgets.scanned_bytes)
        },
        BudgetKind::PageEffects => {
            let v = sat32(m.page_effects + sat32(amount as int));
            (Meters { page_effects: v, ..m }, v <= m.budgets.page_effects)
        },
        BudgetKind::SelectedBytes => {
            let v = sat32(m.selected_bytes + sat32(amount as int));
            (Meters { selected_bytes: v, ..m }, v <= m.budgets.selected_bytes)
        },
        BudgetKind::PartitionCount => {
            let v = sat16(m.partitions + sat16(amount as int));
            (Meters { partitions: v, ..m }, v <= m.budgets.partition_count)
        },
        BudgetKind::TotalSubcalls => {
            let v = sat16(m.subcalls + sat16(amount as int));
            (Meters { subcalls: v, ..m }, v <= m.budgets.total_subcalls)
        },
        _ => (m, true),
    }
}

/// The UTF-8 length of a text.
pub open spec fn byte_count(t: Seq<char>) -> nat {
    encode_utf8(t).len()
}

/// `pattern` occurs in `text` starting at `i`.
pub open spec fn occurs_at(text: Seq<char>, pattern: Seq<char>, i: int) -> bool {
    0 <= i && i + pattern.len() <= text.len() && text.subrange(i, i + pattern.len()) == pattern
}

/// `pattern` occurs somewhere in `text` (literal substring match).
pub open spec fn text_contains(text: Seq<char>, pattern: Seq<char>) -> bool {
    exists|i: int| occurs_at(text, pattern, i)
}

/// Record `i` lies within `ctx` records of a record matching `pattern`.
pub open spec fn near_hit(records: Seq<PageRecord>, pattern: Seq<char>, ctx: int, i: int) -> bool {
    exists|j: int|
        0 <= j < records.len() && i - ctx <= j && j <= i + ctx && text_contains(
            #[trigger] records[j].text@,
            pattern,
        )
}

/// The first `n` records, keeping those near a match.
pub open spec fn grep_prefix(records: Seq<PageRecord>, pattern: Seq<char>, ctx: int, n: int) -> Seq<
    PageRecord,
>
    decreases n,
{
    if n <= 0 {
        Seq::empty()
    } else if near_hit(records, pattern, ctx, n - 1) {
        grep_prefix(records, pattern, ctx, n - 1).push(records[n - 1])
    } else {
        grep_prefix(records, pattern, ctx, n - 1)
    }
}

/// The records matching `pattern`, with `ctx` records of context on each
/// side of every hit, in their original order.
pub open spec fn grep_spec(records: Seq<PageRecord>, pattern: Seq<char>, ctx: u16) -> Seq<
    PageRecord,
> {
    grep_prefix(records, pattern, ctx as int, records.len() as int)
}

/// How many of the first `n` records contain `pattern`.
pub open spec fn count_matches(records: Seq<PageRecord>, pattern: Seq<char>, n: int) -> nat
    decreases n,
{
    if n <= 0 {
        0
    } else {
        count_matches(records, pattern, n - 1) + if text_contains(records[n - 1].text@, pattern) {
            1nat
        } else {
            0nat
        }
    }
}

/// Chunks of `n` consecutive records, the last possibly shorter.
pub open spec fn count_chunks(records: Seq<PageRecord>, n: nat) -> Seq<Seq<PageRecord>>
    decreases records.len(),
{
    if records.len() == 0 || n == 0 {
        Seq::empty()
    } else if records.len() <= n {
        seq![records]
    } else {
        seq![records.take(n as int)] + count_chunks(records.skip(n as int), n)
    }
}

/// Greedy byte fill from record `i` on: a record joins the current chunk
/// unless the chunk is nonempty and the record would push it past `budget`
/// bytes; an oversized record forms its own chunk.
pub open spec fn byte_fill(
    records: Seq<PageRecord>,
    budget: nat,
    i: int,
    chunks: Seq<Seq<PageRecord>>,
    current: Seq<PageRecord>,
    used: nat,
) -> Seq<Seq<PageRecord>>
    decreases records.len() - i,
{
    if i >= records.len() || i < 0 {
        if current.len() > 0 {
            chunks.push(current)
        } else {
            chunks
        }
    } else {
        let len = byte_count(records[i].text@);
        if current.len() > 0 && used + len > budget {
            byte_fill(records, budget, i + 1, chunks.push(current), seq![records[i]], len)
        } else {
            byte_fill(records, budget, i + 1, chunks, current.push(records[i]), used + len)
        }
    }
}

/// Separator split from record `i` on: a record containing a nonempty
/// separator starts a new chunk.
pub open spec fn sep_fill(
    records: Seq<PageRecord>,
    sep: Seq<char>,
    i: int,
    chunks: Seq<Seq<PageRecord>>,
    current: Seq<PageRecord>,
) -> Seq<Seq<PageRecord>>
    decreases records.len() - i,
{
    if i >= records.len() || i < 0 {
        if current.len() > 0 {
            chunks.push(current)
        } else {
            chunks
        }
    } else if sep.len() > 0 && text_contains(records[i].text@, sep) && current.len() > 0 {
        sep_fill(records, sep, i + 1, chunks.push(current), seq![records[i]])
    } else {
        sep_fill(records, sep, i + 1, chunks, current.push(records[i]))
    }
}

/// A size argument, defaulting to one and never below one.
pub open spec fn size_or_one(size: Option<u32>) -> nat {
    match size {
        Some(s) => if s >= 1 {
            s as nat
        } else {
            1
        },
        None => 1,
    }
}

/// The chunks a partition produces.
pub open spec fn partition_spec(
    records: Seq<PageRecord>,
    by: By,
    size: Option<u32>,
    pattern: Option<Seq<char>>,
) -> Seq<Seq<PageRecord>> {
    match by {
        By::Turns => count_chunks(records, size_or_one(size)),
        By::Bytes => byte_fill(records, size_or_one(size), 0, Seq::empty(), Seq::empty(), 0),
        By::Regex => sep_fill(
            records,
            match pattern {
                Some(p) => p,
                None => Seq::empty(),
            },
            0,
            Seq::empty(),
            Seq::empty(),
        ),
    }
}

/// The records of the chunks, in order.
pub open spec fn chunk_records(cs: Seq<Seq<PageRecord>>) -> Seq<PageRecord>
    decreases cs.len(),
{
    if cs.len() == 0 {
        Seq::empty()
    } else {
        chunk_records(cs.drop_last()) + cs.last()
    }
}

/// No chunk is empty.
pub open spec fn chunks_nonempty(cs: Seq<Seq<PageRecord>>) -> bool {
    forall|k: int| 0 <= k < cs.len() ==> (#[trigger] cs[k]).len() > 0
}

proof fn lemma_chunk_records_concat(a: Seq<Seq<PageRecord>>, b: Seq<Seq<PageRecord>>)
    ensures
        chunk_records(a + b) == chunk_records(a) + chunk_records(b),
    decreases b.len(),
{
    if b.len() == 0 {
        assert(a + b =~= a);
        assert(chunk_records(a) + Seq::<PageRecord>::empty() =~= chunk_records(a));
    } else {
        assert((a + b).drop_last() =~= a + b.drop_last());
        lemma_chunk_records_concat(a, b.drop_last());
        assert(chunk_records(a + b) =~= chunk_records(a) + chunk_records(b));
    }
}

proof fn lemma_chunk_records_push(cs: Seq<Seq<PageRecord>>, c: Seq<PageRecord>)
    ensures
        chunk_records(cs.push(c)) == chunk_records(cs) + c,
{
    assert(cs.push(c).drop_last() =~= cs);
}

proof fn lemma_byte_fill_keeps(
    records: Seq<PageRecord>,
    budget: nat,
    i: int,
    chunks: Seq<Seq<PageRecord>>,
    current: Seq<PageRecord>,
    used: nat,
)
    requires
        0 <= i <= records.len(),
        chunks_nonempty(chunks),
    ensures
        chunk_records(byte_fill(records, budget, i, chunks, current, used)) == chunk_records(chunks)
            + current + records.skip(i),
        chunks_nonempty(byte_fill(records, budget, i, chunks, current, used)),
    decreases records.len() - i,
{
    if i >= records.len() {
        assert(records.skip(i) =~= Seq::<PageRecord>::empty());
        assert(chunk_records(chunks) + current + records.skip(i) =~= chunk_records(chunks) + current);
        if current.len() > 0 {
            lemma_chunk_records_push(chunks, current);
        } else {
            assert(current =~= Seq::<PageRecord>::empty());
        }
    } else {
        let len = byte_count(records[i].text@);
        assert(records.skip(i) =~= seq![records[i]] + records.skip(i + 1));
        if current.len() > 0 && used + len > budget {
            lemma_chunk_records_push(chunks, current);
            lemma_byte_fill_keeps(records, budget, i + 1, chunks.push(current), seq![records[i]], len);
            assert(chunk_records(chunks) + current + seq![records[i]] + records.skip(i + 1)
                =~= chunk_records(chunks) + current + records.skip(i));
        } else {
            lemma_byte_fill_keeps(records, budget, i + 1, chunks, current.push(records[i]), used + len);
            assert(chunk_records(chunks) + current.push(records[i]) + records.skip(i + 1)
                =~= chunk_records(chunks) + current + records.skip(i));
        }
    }
}

proof fn lemma_sep_fill_keeps(
    records: Seq<PageRecord>,
    sep: Seq<char>,
    i: int,
    chunks: Seq<Seq<PageRecord>>,
    current: Seq<PageRecord>,
)
    requires
        0 <= i <= records.len(),
        chunks_nonempty(chunks),
    ensures
        chunk_records(sep_fill(records, sep, i, chunks, current)) == chunk_records(chunks) + current
            + records.skip(i),
        chunks_nonempty(sep_fill(records, sep, i, chunks, current)),
    decreases records.len() - i,
{
    if i >= records.len() {
        assert(records.skip(i) =~= Seq::<PageRecord>::empty());
        assert(chunk_records(chunks) + current + records.skip(i) =~= chunk_records(chunks) + current);
        if current.len() > 0 {
            lemma_chunk_records_push(chunks, current);
        } else {
            assert(current =~= Seq::<PageRecord>::empty());
        }
    } else {
        assert(records.skip(i) =~= seq![records[i]] + records.skip(i + 1));
        if sep.len() > 0 && text_contains(records[i].text@, sep) && current.len() > 0 {
            lemma_chunk_records_push(chunks, current);
            lemma_sep_fill_keeps(records, sep, i + 1, chunks.push(current), seq![records[i]]);
            assert(chunk_records(chunks) + current + seq![records[i]] + records.skip(i + 1)
                =~= chunk_records(chunks) + current + records.skip(i));
        } else {
            lemma_sep_fill_keeps(records, sep, i + 1, chunks, current.push(records[i]));
            assert(chunk_records(chunks) + current.push(records[i]) + records.skip(i + 1)
                =~= chunk_records(chunks) + current + records.skip(i));
        }
    }
}

proof fn lemma_count_chunks_keeps(records: Seq<PageRecord>, n: nat)
    requires
        n > 0,
    ensures
        chunk_records(count_chunks(records, n)) == records,
        chunks_nonempty(count_chunks(records, n)),
        forall|k: int|
            0 <= k < count_chunks(records, n).len() - 1 ==> (#[trigger] count_chunks(records, n)[k]).len()
                == n,
    decreases records.len(),
{
    if records.len() == 0 {
        assert(chunk_records(Seq::<Seq<PageRecord>>::empty()) =~= records);
    } else if records.len() <= n {
        lemma_chunk_records_push(Seq::<Seq<PageRecord>>::empty(), records);
        assert(seq![records] =~= Seq::<Seq<PageRecord>>::empty().push(records));
        assert(Seq::<PageRecord>::empty() + records =~= records);
    } else {
        let rest = count_chunks(records.skip(n as int), n);
        lemma_count_chunks_keeps(records.skip(n as int), n);
        lemma_chunk_records_concat(seq![records.take(n as int)], rest);
        lemma_chunk_records_push(Seq::<Seq<PageRecord>>::empty(), records.take(n as int));
        assert(seq![records.take(n as int)] =~= Seq::<Seq<PageRecord>>::empty().push(
            records.take(n as int),
        ));
        assert(Seq::<PageRecord>::empty() + records.take(n as int) =~= records.take(n as int));
        assert(records.take(n as int) + records.skip(n as int) =~= records);
        let all = seq![records.take(n as int)] + rest;
        assert forall|k: int| 0 <= k < all.len() implies (#[trigger] all[k]).len() > 0 by {
            if k > 0 {
                assert(all[k] == rest[k - 1]);
            }
        }
        assert forall|k: int| 0 <= k < all.len() - 1 implies (#[trigger] all[k]).len() == n by {
            if k > 0 {
                assert(all[k] == rest[k - 1]);
            }
        }
    }
}

/// The text bytes of a chunk's records.
pub open spec fn chunk_bytes(c: Seq<PageRecord>) -> nat
    decreases c.len(),
{
    if c.len() == 0 {
        0
    } else {
        chunk_bytes(c.drop_last()) + byte_count(c.last().text@)
    }
}

/// A chunk of two or more records holds at most `budget` text bytes.
pub open spec fn within_budget(c: Seq<PageRecord>, budget: nat) -> bool {
    c.len() >= 2 ==> chunk_bytes(c) <= budget
}

proof fn lemma_byte_fill_budget(
    records: Seq<PageRecord>,
    budget: nat,
    i: int,
    chunks: Seq<Seq<PageRecord>>,
    current: Seq<PageRecord>,
    used: nat,
)
    requires
        0 <= i <= records.len(),
        forall|k: int| 0 <= k < chunks.len() ==> within_budget(#[trigger] chunks[k], budget),
        used == chunk_bytes(current),
        within_budget(current, budget),
    ensures
        forall|k: int|
            0 <= k < byte_fill(records, budget, i, chunks, current, used).len() ==> within_budget(
                #[trigger] byte_fill(records, budget, i, chunks, current, used)[k],
                budget,
            ),
    decreases records.len() - i,
{
    if i < records.len() {
        let len = byte_count(records[i].text@);
        if current.len() > 0 && used + len > budget {
            let one = seq![records[i]];
            assert(one.drop_last() =~= Seq::<PageRecord>::empty());
            assert(chunk_bytes(Seq::<PageRecord>::empty()) == 0);
            assert(chunk_bytes(one) == len);
            assert(forall|k: int| 0 <= k < chunks.push(current).len() ==> within_budget(
                #[trigger] chunks.push(current)[k],
                budget,
            )) by {
                assert forall|k: int| 0 <= k < chunks.push(current).len() implies within_budget(
                    #[trigger] chunks.push(current)[k],
                    budget,
                ) by {
                    if k < chunks.len() {
                        assert(chunks.push(current)[k] == chunks[k]);
                    }
                }
            }
            lemma_byte_fill_budget(records, budget, i + 1, chunks.push(current), one, len);
            assert(byte_fill(records, budget, i, chunks, current, used) == byte_fill(
                records,
                budget,
                i + 1,
                chunks.push(current),
                one,
                len,
            ));
        } else {
            let next = current.push(records[i]);
            assert(next.drop_last() =~= current);
            lemma_byte_fill_budget(records, budget, i + 1, chunks, next, used + len);
            assert(byte_fill(records, budget, i, chunks, current, used) == byte_fill(
                records,
                budget,
                i + 1,
                chunks,
                next,
                used + len,
            ));
        }
    } else {
        assert forall|k: int| 0 <= k < chunks.push(current).len() implies within_budget(
            #[trigger] chunks.push(current)[k],
            budget,
        ) by {
            if k < chunks.len() {
                assert(chunks.push(current)[k] == chunks[k]);
            }
        }
    }
}

/// Only the first record of a chunk may contain the separator.
pub open spec fn sep_leads(c: Seq<PageRecord>, sep: Seq<char>) -> bool {
    forall|j: int| 1 <= j < c.len() ==> !text_contains((#[trigger] c[j]).text@, sep)
}

proof fn lemma_sep_fill_leads(
    records: Seq<PageRecord>,
    sep: Seq<char>,
    i: int,
    chunks: Seq<Seq<PageRecord>>,
    current: Seq<PageRecord>,
)
    requires
        0 <= i <= records.len(),
        sep.len() > 0,
        forall|k: int| 0 <= k < chunks.len() ==> sep_leads(#[trigger] chunks[k], sep),
        sep_leads(current, sep),
    ensures
        forall|k: int|
            0 <= k < sep_fill(records, sep, i, chunks, current).len() ==> sep_leads(
                #[trigger] sep_fill(records, sep, i, chunks, current)[k],
                sep,
            ),
    decreases records.len() - i,
{
    if i < records.len() {
        if text_contains(records[i].text@, sep) && current.len() > 0 {
            assert forall|k: int| 0 <= k < chunks.push(current).len() implies sep_leads(
                #[trigger] chunks.push(current)[k],
                sep,
            ) by {
                if k < chunks.len() {
                    assert(chunks.push(current)[k] == chunks[k]);
                }
            }
            lemma_sep_fill_leads(records, sep, i + 1, chunks.push(current), seq![records[i]]);
            assert(sep_fill(records, sep, i, chunks, current) == sep_fill(
                records,
                sep,
                i + 1,
                chunks.push(current),
                seq![records[i]],
            ));
        } else {
            let next = current.push(records[i]);
            assert forall|j: int| 1 <= j < next.len() implies !text_contains((#[trigger] next[j]).text@, sep) by {
                if j < current.len() {
                    assert(next[j] == current[j]);
                }
            }
            lemma_sep_fill_leads(records, sep, i + 1, chunks, next);
            assert(sep_fill(records, sep, i, chunks, current) == sep_fill(
                records,
                sep,
                i + 1,
                chunks,
                next,
            ));
        }
    } else {
        assert forall|k: int| 0 <= k < chunks.push(current).len() implies sep_leads(
            #[trigger] chunks.push(current)[k],
            sep,
        ) by {
            if k < chunks.len() {
                assert(chunks.push(current)[k] == chunks[k]);
            }
        }
    }
}

/// By bytes, a chunk of two or more records holds at most the requested
/// byte budget (at least one; a single oversized record stands alone). By
/// separator, only a chunk's first record may contain a nonempty
/// separator.
pub proof fn lemma_partition_chunk_rules(
    records: Seq<PageRecord>,
    by: By,
    size: Option<u32>,
    pattern: Option<Seq<char>>,
)
    ensures
        by == By::Bytes ==> forall|k: int|
            0 <= k < partition_spec(records, by, size, pattern).len() ==> within_budget(
                #[trigger] partition_spec(records, by, size, pattern)[k],
                size_or_one(size),
            ),
        by == By::Regex && (pattern matches Some(p) && p.len() > 0) ==> forall|k: int|
            0 <= k < partition_spec(records, by, size, pattern).len() ==> sep_leads(
                #[trigger] partition_spec(records, by, size, pattern)[k],
                pattern->Some_0,
            ),
{
    let e = Seq::<Seq<PageRecord>>::empty();
    if by == By::Bytes {
        lemma_byte_fill_budget(records, size_or_one(size), 0, e, Seq::empty(), 0);
    }
    if by == By::Regex {
        if let Some(p) = pattern {
            if p.len() > 0 {
                lemma_sep_fill_leads(records, p, 0, e, Seq::empty());
            }
        }
    }
}

/// Partitioning drops, duplicates and reorders nothing: the chunks, read
/// in order, are the records, and no chunk is empty. By turns, every chunk
/// but the last holds exactly the requested count (at least one).
pub proof fn lemma_partition_keeps_records(
    records: Seq<PageRecord>,
    by: By,
    size: Option<u32>,
    pattern: Option<Seq<char>>,
)
    ensures
        chunk_records(partition_spec(records, by, size, pattern)) == records,
        chunks_nonempty(partition_spec(records, by, size, pattern)),
        by == By::Turns ==> forall|k: int|
            0 <= k < partition_spec(records, by, size, pattern).len() - 1
                ==> (#[trigger] partition_spec(records, by, size, pattern)[k]).len() == size_or_one(size),
{
    let e = Seq::<Seq<PageRecord>>::empty();
    assert(chunk_records(e) =~= Seq::<PageRecord>::empty());
    assert(records.skip(0) =~= records);
    assert(Seq::<PageRecord>::empty() + Seq::<PageRecord>::empty() + records =~= records);
    match by {
        By::Turns => lemma_count_chunks_keeps(records, size_or_one(size)),
        By::Bytes => lemma_byte_fill_keeps(records, size_or_one(size), 0, e, Seq::empty(), 0),
        By::Regex => lemma_sep_fill_keeps(
            records,
            match pattern {
                Some(p) => p,
                None => Seq::empty(),
            },
            0,
            e,
            Seq::empty(),
        ),
    }
}

/// Each record's text followed by a newline.
pub open spec fn render_records_spec(rs: Seq<PageRecord>) -> Seq<char>
    decreases rs.len(),
{
    if rs.len() == 0 {
        Seq::empty()
    } else {
        render_records_spec(rs.drop_last()) + rs.last().text@ + seq!['\n']
    }
}

/// The chunks rendered one after another.
pub open spec fn render_chunks_spec(cs: Seq<Seq<PageRecord>>) -> Seq<char>
    decreases cs.len(),
{
    if cs.len() == 0 {
        Seq::empty()
    } else {
        render_chunks_spec(cs.drop_last()) + render_records_spec(cs.last())
    }
}

/// Texts joined with newlines.
pub open spec fn join_lines(ls: Seq<Seq<char>>) -> Seq<char>
    decreases ls.len(),
{
    if ls.len() == 0 {
        Seq::empty()
    } else if ls.len() == 1 {
        ls[0]
    } else {
        join_lines(ls.drop_last()) + seq!['\n'] + ls.last()
    }
}

/// A bound value rendered as answer or context text.
pub open spec fn render_bound_spec(b: BoundSpec) -> Seq<char> {
    match b {
        BoundSpec::Records(rs) => render_records_spec(rs),
        BoundSpec::Chunks(cs) => render_chunks_spec(cs),
        BoundSpec::Count(n) => decimal(n as nat),
        BoundSpec::Digest(d) => d,
        BoundSpec::DigestList(l) => join_lines(l),
        BoundSpec::Error(_) => Seq::empty(),
    }
}

/// A bound value with the digest value cap applied.
pub open spec fn cap_bound_spec(b: BoundSpec, limit: u32) -> BoundSpec {
    match b {
        BoundSpec::Digest(d) => BoundSpec::Digest(capped_chars(d, limit as nat)),
        BoundSpec::DigestList(l) => BoundSpec::DigestList(
            l.map_values(|d: Seq<char>| capped_chars(d, limit as nat)),
        ),
        other => other,
    }
}

/// The one-based slot for a zero-based program counter.
pub open spec fn slot_of(pc: int) -> u32 {
    sat32(pc + 1)
}

/// What the current line is waiting on, as plain values.
pub enum PendingSpec {
    /// Ready to execute the next instruction.
    Idle,
    /// Walking store pages.
    Pages {
        /// The selection walked.
        sel: Sel,
        /// The last cursor received.
        cursor: Option<u64>,
        /// Records collected so far.
        collected: Seq<PageRecord>,
    },
    /// Awaiting a single `ask` answer.
    Ask,
    /// Awaiting `ask-each` answers.
    AskEach {
        /// Capped answers received, by index.
        slots: Seq<Option<Seq<char>>>,
        /// Answers still missing.
        outstanding: nat,
    },
}

/// The executor's state as plain values.
pub struct ExecModel {
    /// The lowered query.
    pub query: Seq<crate::rlm::ir::Binding>,
    /// Zero-based program counter.
    pub pc: int,
    /// Values bound so far, by zero-based slot.
    pub slots: Seq<Option<BoundSpec>>,
    /// The meters.
    pub meters: Meters,
    /// The pending wait.
    pub pending: PendingSpec,
    /// The query finished.
    pub finished: bool,
}

/// Binds a value to the current slot and advances.
pub open spec fn bind_spec(m: ExecModel, b: BoundSpec) -> (ExecModel, StepSpec) {
    let capped = cap_bound_spec(b, m.meters.budgets.ask_digest_bytes);
    (
        ExecModel {
            slots: m.slots.update(m.pc, Some(capped)),
            pc: m.pc + 1,
            pending: PendingSpec::Idle,
            ..m
        },
        StepSpec::Line { slot: slot_of(m.pc), bound: capped },
    )
}

/// The value bound to the slot a one-based reference names, rendered.
pub open spec fn rendered_slot(m: ExecModel, line: u32) -> Seq<char> {
    if line >= 1 && line - 1 < m.slots.len() {
        match m.slots[line - 1] {
            Some(b) => render_bound_spec(b),
            None => Seq::empty(),
        }
    } else {
        Seq::empty()
    }
}

/// The context rendered for an `ask` over a selection: an earlier slot's
/// value for a reference, empty otherwise.
pub open spec fn sel_context(m: ExecModel, sel: Sel) -> Seq<char> {
    match sel {
        Sel::Ref(r) => rendered_slot(m, r.slot()),
        _ => Seq::empty(),
    }
}

/// Charging selected bytes for chunks `k..` of an `ask-each`, stopping at
/// the first overflow.
pub open spec fn charge_chunks(meters: Meters, chunks: Seq<Seq<PageRecord>>, k: int) -> (
    Meters,
    bool,
)
    decreases chunks.len() - k,
{
    if k >= chunks.len() || k < 0 {
        (meters, true)
    } else {
        let (m2, ok) = charged(
            meters,
            BudgetKind::SelectedBytes,
            byte_count(render_records_spec(chunks[k])) as u64,
        );
        if !ok {
            (m2, false)
        } else {
            charge_chunks(m2, chunks, k + 1)
        }
    }
}

/// The requests of an `ask-each` batch.
pub open spec fn ask_each_requests(chunks: Seq<Seq<PageRecord>>, question: Seq<char>) -> Seq<
    AskSpec,
> {
    Seq::new(
        chunks.len(),
        |k: int|
            AskSpec {
                index: sat32(k),
                question,
                context: render_records_spec(chunks[k]),
                sample_k: None,
            },
    )
}

/// Beginning an `ask-each` over the chunks bound at `line`.
pub open spec fn begin_ask_each_spec(m: ExecModel, line: u32, question: Seq<char>) -> (
    ExecModel,
    StepSpec,
) {
    if line == 0 || line - 1 >= m.slots.len() {
        bind_spec(m, BoundSpec::Error(VerbErrorCause::BadRef))
    } else {
        match m.slots[line - 1] {
            Some(BoundSpec::Chunks(chunks)) => if chunks.len() == 0 {
                bind_spec(m, BoundSpec::DigestList(Seq::empty()))
            } else {
                let (m1, ok1) = charged(m.meters, BudgetKind::TotalSubcalls, chunks.len() as u64);
                if !ok1 {
                    bind_spec(ExecModel { meters: m1, ..m }, BoundSpec::Error(VerbErrorCause::Budget))
                } else {
                    let (m2, ok2) = charge_chunks(m1, chunks, 0);
                    if !ok2 {
                        bind_spec(
                            ExecModel { meters: m2, ..m },
                            BoundSpec::Error(VerbErrorCause::Budget),
                        )
                    } else {
                        (
                            ExecModel {
                                meters: m2,
                                pending: PendingSpec::AskEach {
                                    slots: Seq::new(chunks.len(), |k: int| None),
                                    outstanding: chunks.len(),
                                },
                                ..m
                            },
                            StepSpec::NeedAsk(ask_each_requests(chunks, question)),
                        )
                    }
                }
            },
            _ => bind_spec(m, BoundSpec::Error(VerbErrorCause::BadRef)),
        }
    }
}

/// Beginning the instruction at the program counter.
pub open spec fn begin_spec(m0: ExecModel, i: Instr) -> (ExecModel, StepSpec) {
    let verbs = sat16(m0.meters.verbs + 1);
    let m = ExecModel { meters: Meters { verbs, ..m0.meters }, ..m0 };
    if verbs > m.meters.budgets.verb_count {
        (m, StepSpec::Failed { cause: VerbErrorCause::Budget })
    } else {
        match i {
            Instr::Grep { sel, .. } => page_walk_spec(m, sel),
            Instr::Slice { sel } => page_walk_spec(m, sel),
            Instr::Head { sel, .. } => page_walk_spec(m, sel),
            Instr::Tail { sel, .. } => page_walk_spec(m, sel),
            Instr::Count { sel, .. } => page_walk_spec(m, sel),
            Instr::Partition { sel, .. } => page_walk_spec(m, sel),
            Instr::Ask { sel, question, sample_k } => {
                let (m1, ok1) = charged(m.meters, BudgetKind::TotalSubcalls, 1);
                if !ok1 {
                    bind_spec(ExecModel { meters: m1, ..m }, BoundSpec::Error(VerbErrorCause::Budget))
                } else {
                    let context = sel_context(m, sel);
                    let (m2, ok2) = charged(m1, BudgetKind::SelectedBytes, byte_count(context) as u64);
                    if !ok2 {
                        bind_spec(
                            ExecModel { meters: m2, ..m },
                            BoundSpec::Error(VerbErrorCause::Budget),
                        )
                    } else {
                        (
                            ExecModel { meters: m2, pending: PendingSpec::Ask, ..m },
                            StepSpec::NeedAsk(
                                seq![AskSpec { index: 0, question: question@, context, sample_k }],
                            ),
                        )
                    }
                }
            },
            Instr::AskEach { chunks, question } => begin_ask_each_spec(m, chunks.slot(), question@),
            Instr::Final { value } => (
                ExecModel { finished: true, ..m },
                StepSpec::Done {
                    answer: match value {
                        FinalValue::Literal(t) => t@,
                        FinalValue::Ref(r) => rendered_slot(m, r.slot()),
                    },
                },
            ),
        }
    }
}

/// Starting a page walk over `sel`.
pub open spec fn page_walk_spec(m: ExecModel, sel: Sel) -> (ExecModel, StepSpec) {
    (
        ExecModel {
            pending: PendingSpec::Pages { sel, cursor: None, collected: Seq::empty() },
            ..m
        },
        StepSpec::NeedPages(PageRequest { sel, cursor: None }),
    )
}

/// One step.
pub open spec fn step_spec(m: ExecModel) -> (ExecModel, StepSpec) {
    if m.finished || m.pc >= m.query.len() {
        (ExecModel { finished: true, ..m }, StepSpec::Done { answer: Seq::empty() })
    } else if !(m.pending is Idle) {
        (m, StepSpec::Failed { cause: VerbErrorCause::Parse })
    } else {
        match m.query[m.pc].value {
            BoundValue::Instr(i) => begin_spec(m, i),
            BoundValue::Error(_) => (
                ExecModel { pc: m.pc + 1, ..m },
                StepSpec::Line {
                    slot: slot_of(m.pc),
                    bound: match m.slots[m.pc] {
                        Some(b) => b,
                        None => BoundSpec::Error(VerbErrorCause::Parse),
                    },
                },
            ),
        }
    }
}

/// `head n` binds the first `min(n, len)` collected records and `tail n`
/// the last `min(n, len)`, in their order, so a nonempty `tail` ends with
/// the last collected record; `slice` binds every collected record, and a
/// `count` without a pattern binds how many were collected.
pub proof fn lemma_head_tail_bind(m: ExecModel, records: Seq<PageRecord>)
    ensures
        match m.query[m.pc].value {
            BoundValue::Instr(Instr::Tail { n, .. }) => {
                let k = if n <= records.len() {
                    n as int
                } else {
                    records.len() as int
                };
                finish_pages_spec(m, records).1 matches StepSpec::Line { bound, .. } && bound
                    matches BoundSpec::Records(b) && b.len() == k && (forall|j: int|
                    0 <= j < k ==> #[trigger] b[j] == records[records.len() - k + j]) && (k > 0
                    ==> b.last() == records.last())
            },
            BoundValue::Instr(Instr::Head { n, .. }) => {
                let k = if n <= records.len() {
                    n as int
                } else {
                    records.len() as int
                };
                finish_pages_spec(m, records).1 matches StepSpec::Line { bound, .. } && bound
                    matches BoundSpec::Records(b) && b.len() == k && (forall|j: int|
                    0 <= j < k ==> #[trigger] b[j] == records[j])
            },
            BoundValue::Instr(Instr::Slice { .. }) => finish_pages_spec(m, records).1 matches StepSpec::Line {
                bound,
                ..
            } && bound == BoundSpec::Records(records),
            BoundValue::Instr(Instr::Count { pattern: None, .. }) => finish_pages_spec(
                m,
                records,
            ).1 matches StepSpec::Line { bound, .. } && bound == BoundSpec::Count(
                records.len() as u64,
            ),
            _ => true,
        },
{
}

/// One step: a finished query stays done with an empty answer; a
/// suspended one refuses the step and changes nothing; a line the step
/// binds carries the one-based slot of the program counter, which then
/// moves to the next line, so the lines of a run carry slots 1, 2, 3, ...
/// in turn; and an instruction begun once the verb budget is spent fails
/// as a budget error.
pub proof fn lemma_step_laws(m: ExecModel)
    ensures
        (m.finished || m.pc >= m.query.len()) ==> step_spec(m).1 == (StepSpec::Done {
            answer: Seq::empty(),
        }) && step_spec(m).0.finished,
        !(m.finished || m.pc >= m.query.len()) && !(m.pending is Idle) ==> step_spec(m) == (
            m,
            StepSpec::Failed { cause: VerbErrorCause::Parse },
        ),
        step_spec(m).1 matches StepSpec::Line { slot, .. } ==> slot == slot_of(m.pc) && step_spec(
            m,
        ).0.pc == m.pc + 1,
        !(m.finished || m.pc >= m.query.len()) && m.pending is Idle && m.query[m.pc].value is Instr
            && sat16(m.meters.verbs + 1) > m.meters.budgets.verb_count ==> step_spec(m).1 == (
        StepSpec::Failed { cause: VerbErrorCause::Budget }),
{
}

/// The bytes scanned by a page.
pub open spec fn scanned_of(rs: Seq<PageRecord>) -> u64
    decreases rs.len(),
{
    if rs.len() == 0 {
        0
    } else {
        sat64(scanned_of(rs.drop_last()) + byte_count(rs.last().text@))
    }
}

/// Finishing the record-reading instruction at the program counter with
/// the collected records.
pub open spec fn finish_pages_spec(m: ExecModel, records: Seq<PageRecord>) -> (ExecModel, StepSpec) {
    match m.query[m.pc].value {
        BoundValue::Instr(i) => match i {
            Instr::Slice { .. } => bind_spec(m, BoundSpec::Records(records)),
            Instr::Head { n, .. } => bind_spec(
                m,
                BoundSpec::Records(
                    records.take(
                        if n <= records.len() {
                            n as int
                        } else {
                            records.len() as int
                        },
                    ),
                ),
            ),
            Instr::Tail { n, .. } => bind_spec(
                m,
                BoundSpec::Records(
                    records.skip(
                        if n <= records.len() {
                            records.len() - n
                        } else {
                            0
                        },
                    ),
                ),
            ),
            Instr::Grep { pattern, ctx, .. } => bind_spec(
                m,
                BoundSpec::Records(grep_spec(records, pattern@, ctx)),
            ),
            Instr::Count { pattern, .. } => bind_spec(
                m,
                BoundSpec::Count(
                    match pattern {
                        Some(p) => count_matches(records, p@, records.len() as int) as u64,
                        None => records.len() as u64,
                    },
                ),
            ),
            Instr::Partition { by, size, pattern, .. } => {
                let chunks = partition_spec(
                    records,
                    by,
                    size,
                    match pattern {
                        Some(p) => Some(p@),
                        None => None,
                    },
                );
                let (m1, ok) = charged(m.meters, BudgetKind::PartitionCount, chunks.len() as u64);
                if !ok {
                    bind_spec(ExecModel { meters: m1, ..m }, BoundSpec::Error(VerbErrorCause::Budget))
                } else {
                    bind_spec(ExecModel { meters: m1, ..m }, BoundSpec::Chunks(chunks))
                }
            },
            _ => bind_spec(m, BoundSpec::Error(VerbErrorCause::Parse)),
        },
        BoundValue::Error(_) => bind_spec(m, BoundSpec::Error(VerbErrorCause::Parse)),
    }
}

/// Supplying a page.
pub open spec fn provide_pages_spec(m: ExecModel, records: Seq<PageRecord>, next: Option<u64>) -> (
    ExecModel,
    StepSpec,
) {
    match m.pending {
        PendingSpec::Pages { sel, cursor, collected } => {
            let m0 = ExecModel { pending: PendingSpec::Idle, ..m };
            let (a, ok_a) = charged(m.meters, BudgetKind::PageEffects, 1);
            if !ok_a {
                bind_spec(ExecModel { meters: a, ..m0 }, BoundSpec::Error(VerbErrorCause::Budget))
            } else {
                let (b, ok_b) = charged(a, BudgetKind::ScannedPages, 1);
                if !ok_b {
                    bind_spec(ExecModel { meters: b, ..m0 }, BoundSpec::Error(VerbErrorCause::Budget))
                } else {
                    let (c, ok_c) = charged(b, BudgetKind::ScannedBytes, scanned_of(records));
                    if !ok_c {
                        bind_spec(
                            ExecModel { meters: c, ..m0 },
                            BoundSpec::Error(VerbErrorCause::Budget),
                        )
                    } else {
                        let all = collected + records;
                        match next {
                            Some(k) => (
                                ExecModel {
                                    meters: c,
                                    pending: PendingSpec::Pages {
                                        sel,
                                        cursor: Some(k),
                                        collected: all,
                                    },
                                    ..m0
                                },
                                StepSpec::NeedPages(PageRequest { sel, cursor: Some(k) }),
                            ),
                            None => finish_pages_spec(ExecModel { meters: c, ..m0 }, all),
                        }
                    }
                }
            }
        },
        _ => (
            ExecModel { pending: PendingSpec::Idle, ..m },
            StepSpec::Failed { cause: VerbErrorCause::Parse },
        ),
    }
}

/// Rejoining answers `i..` into the `ask-each` slots by index; the first
/// answer for an index wins and out-of-range indices are ignored.
pub open spec fn rejoin(
    slots: Seq<Option<Seq<char>>>,
    outstanding: nat,
    results: Seq<AskResult>,
    i: int,
    limit: u32,
) -> (Seq<Option<Seq<char>>>, nat)
    decreases results.len() - i,
{
    if i >= results.len() || i < 0 {
        (slots, outstanding)
    } else {
        let r = results[i];
        if (r.index as int) < slots.len() && slots[r.index as int] is None {
            rejoin(
                slots.update(r.index as int, Some(capped_chars(r.answer@, limit as nat))),
                if outstanding > 0 {
                    (outstanding - 1) as nat
                } else {
                    0
                },
                results,
                i + 1,
                limit,
            )
        } else {
            rejoin(slots, outstanding, results, i + 1, limit)
        }
    }
}

/// Supplying ask answers.
pub open spec fn provide_ask_spec(m: ExecModel, results: Seq<AskResult>) -> (ExecModel, StepSpec) {
    let limit = m.meters.budgets.ask_digest_bytes;
    let m0 = ExecModel { pending: PendingSpec::Idle, ..m };
    match m.pending {
        PendingSpec::Ask => bind_spec(
            m0,
            BoundSpec::Digest(
                if results.len() > 0 {
                    capped_chars(results[0].answer@, limit as nat)
                } else {
                    Seq::empty()
                },
            ),
        ),
        PendingSpec::AskEach { slots, outstanding } => {
            let (s2, o2) = rejoin(slots, outstanding, results, 0, limit);
            if o2 == 0 {
                bind_spec(
                    m0,
                    BoundSpec::DigestList(
                        s2.map_values(
                            |d: Option<Seq<char>>|
                                match d {
                                    Some(t) => t,
                                    None => Seq::empty(),
                                },
                        ),
                    ),
                )
            } else {
                (
                    ExecModel { pending: PendingSpec::AskEach { slots: s2, outstanding: o2 }, ..m },
                    StepSpec::AwaitingMore,
                )
            }
        },
        _ => (m0, StepSpec::Failed { cause: VerbErrorCause::Parse }),
    }
}


/// Whether `pattern` occurs in `text`.
fn occurs(text: &str, pattern: &str) -> (r: bool)
    ensures
        r == text_contains(text@, pattern@),
{
    let t = chars_of(text);
    let p = chars_of(pattern);
    let n = t.len();
    let m = p.len();
    if m > n {
        assert forall|i: int| !occurs_at(text@, pattern@, i) by {}
        return false;
    }
    let mut i: usize = 0;
    while i <= n - m
        invariant
            t@ == text@,
            p@ == pattern@,
            n == t@.len(),
            m == p@.len(),
            m <= n,
            i <= n - m + 1,
            forall|k: int| 0 <= k < i ==> !occurs_at(text@, pattern@, k),
        decreases n - m + 1 - i,
    {
        let mut j: usize = 0;
        let mut same = true;
        while j < m
            invariant
                t@ == text@,
                p@ == pattern@,
                n == t@.len(),
                m == p@.len(),
                i + m <= n,
                j <= m,
                same == (forall|q: int| 0 <= q < j ==> t@[i + q] == p@[q]),
            decreases m - j,
        {
            if t[i + j] != p[j] {
                same = false;
            }
            j = j + 1;
        }
        if same {
            assert(text@.subrange(i as int, i + m) =~= pattern@);
            assert(occurs_at(text@, pattern@, i as int));
            return true;
        }
        assert(!occurs_at(text@, pattern@, i as int)) by {
            if text@.subrange(i as int, i + m) == pattern@ {
                let q = choose|q: int| 0 <= q < m && t@[i + q] != p@[q];
                assert(text@.subrange(i as int, i + m)[q] == t@[i + q]);
            }
        }
        i = i + 1;
    }
    assert forall|k: int| !occurs_at(text@, pattern@, k) by {
        if occurs_at(text@, pattern@, k) {
            assert(k < i);
        }
    }
    false
}

/// The UTF-8 length of `s`.
fn text_len(s: &str) -> (r: usize)
    ensures
        r == byte_count(s@),
{
    s.as_bytes().len()
}

/// Truncates text to a byte cap on a character boundary.
fn cap(text: &str, limit: u32) -> (r: String)
    ensures
        r@ == capped_chars(text@, limit as nat),
{
    byte_prefix(text, limit as usize)
}

fn clone_records(v: &Vec<PageRecord>) -> (r: Vec<PageRecord>)
    ensures
        r@ == v@,
{
    let mut out: Vec<PageRecord> = Vec::new();
    let mut i: usize = 0;
    while i < v.len()
        invariant
            i <= v@.len(),
            out@ == v@.take(i as int),
        decreases v@.len() - i,
    {
        out.push(v[i].clone());
        assert(out@ =~= v@.take(i + 1));
        i = i + 1;
    }
    assert(out@ =~= v@);
    out
}

fn clone_chunks(v: &Vec<Vec<PageRecord>>) -> (r: Vec<Vec<PageRecord>>)
    ensures
        r@.map_values(|c: Vec<PageRecord>| c@) == v@.map_values(|c: Vec<PageRecord>| c@),
{
    let mut out: Vec<Vec<PageRecord>> = Vec::new();
    let mut i: usize = 0;
    while i < v.len()
        invariant
            i <= v@.len(),
            out@.len() == i,
            forall|k: int| 0 <= k < i ==> (#[trigger] out@[k])@ == v@[k]@,
        decreases v@.len() - i,
    {
        out.push(clone_records(&v[i]));
        i = i + 1;
    }
    assert(out@.map_values(|c: Vec<PageRecord>| c@) =~= v@.map_values(|c: Vec<PageRecord>| c@));
    out
}

fn clone_strings(v: &Vec<String>) -> (r: Vec<String>)
    ensures
        r@ == v@,
{
    let mut out: Vec<String> = Vec::new();
    let mut i: usize = 0;
    while i < v.len()
        invariant
            i <= v@.len(),
            out@ == v@.take(i as int),
        decreases v@.len() - i,
    {
        out.push(v[i].clone());
        assert(out@ =~= v@.take(i + 1));
        i = i + 1;
    }
    assert(out@ =~= v@);
    out
}

fn clone_bound(b: &Bound) -> (r: Bound)
    ensures
        r@ == b@,
{
    match b {
        Bound::Records(v) => Bound::Records(clone_records(v)),
        Bound::Chunks(v) => Bound::Chunks(clone_chunks(v)),
        Bound::Count(n) => Bound::Count(*n),
        Bound::Digest(d) => Bound::Digest(d.clone()),
        Bound::DigestList(l) => {
            let c = clone_strings(l);
            assert(c@.map_values(|s: String| s@) =~= l@.map_values(|s: String| s@));
            Bound::DigestList(c)
        },
        Bound::Error(c) => Bound::Error(*c),
    }
}

fn newline() -> (r: &'static str)
    ensures
        r@ == seq!['\n'],
{
    proof {
        reveal_strlit("\n");
    }
    "\n"
}

fn render_records(records: &Vec<PageRecord>) -> (r: String)
    ensures
        r@ == render_records_spec(records@),
{
    let mut out = String::new();
    let mut i: usize = 0;
    while i < records.len()
        invariant
            i <= records@.len(),
            out@ == render_records_spec(records@.take(i as int)),
        decreases records@.len() - i,
    {
        assert(records@.take(i + 1).drop_last() =~= records@.take(i as int));
        out.append(records[i].text.as_str());
        out.append(newline());
        i = i + 1;
    }
    assert(records@.take(i as int) =~= records@);
    out
}

fn render_bound(bound: &Bound) -> (r: String)
    ensures
        r@ == render_bound_spec(bound@),
{
    match bound {
        Bound::Records(records) => render_records(records),
        Bound::Chunks(chunks) => {
            let mut out = String::new();
            let mut i: usize = 0;
            let ghost cs = chunks@.map_values(|c: Vec<PageRecord>| c@);
            while i < chunks.len()
                invariant
                    i <= chunks@.len(),
                    cs == chunks@.map_values(|c: Vec<PageRecord>| c@),
                    out@ == render_chunks_spec(cs.take(i as int)),
                decreases chunks@.len() - i,
            {
                assert(cs.take(i + 1).drop_last() =~= cs.take(i as int));
                let piece = render_records(&chunks[i]);
                out.append(piece.as_str());
                i = i + 1;
            }
            assert(cs.take(i as int) =~= cs);
            out
        },
        Bound::Count(n) => decimal_string(*n),
        Bound::Digest(d) => d.clone(),
        Bound::DigestList(list) => {
            let ghost ls = list@.map_values(|s: String| s@);
            let mut out = String::new();
            let mut i: usize = 0;
            while i < list.len()
                invariant
                    i <= list@.len(),
                    ls == list@.map_values(|s: String| s@),
                    out@ == join_lines(ls.take(i as int)),
                decreases list@.len() - i,
            {
                assert(ls.take(i + 1).drop_last() =~= ls.take(i as int));
                if i > 0 {
                    out.append(newline());
                } else {
                    proof {
                        assert(ls.take(1) =~= seq![ls[0]]);
                    }
                }
                out.append(list[i].as_str());
                i = i + 1;
            }
            assert(ls.take(i as int) =~= ls);
            out
        },
        Bound::Error(_) => String::new(),
    }
}

impl Meters {
    fn new(budgets: Budgets) -> (r: Self)
        ensures
            r == (Meters {
                budgets,
                verbs: 0,
                subcalls: 0,
                partitions: 0,
                selected_bytes: 0,
                scanned_pages: 0,
                scanned_bytes: 0,
                page_effects: 0,
            }),
    {
        Meters {
            budgets,
            verbs: 0,
            subcalls: 0,
            partitions: 0,
            selected_bytes: 0,
            scanned_pages: 0,
            scanned_bytes: 0,
            page_effects: 0,
        }
    }

    /// Charges a meter; `false` when it went over its budget.
    fn charge(&mut self, kind: BudgetKind, amount: u64) -> (r: bool)
        ensures
            (*final(self), r) == charged(*old(self), kind, amount),
    {
        let amount32: u32 = if amount <= u32::MAX as u64 {
            amount as u32
        } else {
            u32::MAX
        };
        let amount16: u16 = if amount <= u16::MAX as u64 {
            amount as u16
        } else {
            u16::MAX
        };
        match kind {
            BudgetKind::ScannedPages => {
                self.scanned_pages = self.scanned_pages.saturating_add(amount32);
                self.scanned_pages <= self.budgets.scanned_pages
            },
            BudgetKind::ScannedBytes => {
                self.scanned_bytes = self.scanned_bytes.saturating_add(amount);
                self.scanned_bytes <= self.budgets.scanned_bytes
            },
            BudgetKind::PageEffects => {
                self.page_effects = self.page_effects.saturating_add(amount32);
                self.page_effects <= self.budgets.page_effects
            },
            BudgetKind::SelectedBytes => {
                self.selected_bytes = self.selected_bytes.saturating_add(amount32);
                self.selected_bytes <= self.budgets.selected_bytes
            },
            BudgetKind::PartitionCount => {
                self.partitions = self.partitions.saturating_add(amount16);
                self.partitions <= self.budgets.partition_count
            },
            BudgetKind::TotalSubcalls => {
                self.subcalls = self.subcalls.saturating_add(amount16);
                self.subcalls <= self.budgets.total_subcalls
            },
            _ => true,
        }
    }
}

fn grep(records: &Vec<PageRecord>, pattern: &str, ctx: u16) -> (r: Vec<PageRecord>)
    ensures
        r@ == grep_spec(records@, pattern@, ctx),
{
    let n = records.len();
    let mut hits: Vec<bool> = Vec::new();
    let mut j: usize = 0;
    while j < n
        invariant
            n == records@.len(),
            j <= n,
            hits@.len() == j,
            forall|k: int| 0 <= k < j ==> hits@[k] == text_contains(records@[k].text@, pattern@),
        decreases n - j,
    {
        hits.push(occurs(records[j].text.as_str(), pattern));
        j = j + 1;
    }
    let c = ctx as usize;
    let mut out: Vec<PageRecord> = Vec::new();
    let mut i: usize = 0;
    while i < n
        invariant
            n == records@.len(),
            i <= n,
            hits@.len() == n,
            c == ctx,
            forall|k: int| 0 <= k < n ==> hits@[k] == text_contains(records@[k].text@, pattern@),
            out@ == grep_prefix(records@, pattern@, ctx as int, i as int),
        decreases n - i,
    {
        let lo = if i >= c {
            i - c
        } else {
            0
        };
        let hi = if c < n - i {
            i + c + 1
        } else {
            n
        };
        let mut keep = false;
        let mut k = lo;
        while k < hi
            invariant
                lo <= k <= hi <= n,
                n == records@.len(),
                hits@.len() == n,
                lo == if i >= c {
                    i - c
                } else {
                    0int
                },
                hi == if c < n - i {
                    i + c + 1
                } else {
                    n as int
                },
                i < n,
                c == ctx,
                forall|q: int| 0 <= q < n ==> hits@[q] == text_contains(records@[q].text@, pattern@),
                keep == (exists|q: int| lo <= q < k && text_contains(#[trigger] records@[q].text@, pattern@)),
            decreases hi - k,
        {
            if hits[k] {
                keep = true;
            }
            k = k + 1;
        }
        assert(keep == near_hit(records@, pattern@, ctx as int, i as int)) by {
            if keep {
                let q = choose|q: int| lo <= q < hi && text_contains(#[trigger] records@[q].text@, pattern@);
                assert(0 <= q < n && i - ctx <= q && q <= i + ctx);
            }
            if near_hit(records@, pattern@, ctx as int, i as int) {
                let q = choose|q: int|
                    0 <= q < records@.len() && i - ctx <= q && q <= i + ctx && text_contains(
                        #[trigger] records@[q].text@,
                        pattern@,
                    );
                assert(lo <= q < hi);
            }
        }
        if keep {
            out.push(records[i].clone());
        }
        i = i + 1;
    }
    out
}

fn count_matching(records: &Vec<PageRecord>, pattern: &str) -> (r: u64)
    ensures
        r == count_matches(records@, pattern@, records@.len() as int) as u64,
{
    let mut count: u64 = 0;
    let mut i: usize = 0;
    while i < records.len()
        invariant
            i <= records@.len(),
            count == count_matches(records@, pattern@, i as int),
            count <= i,
        decreases records@.len() - i,
    {
        if occurs(records[i].text.as_str(), pattern) {
            count = count + 1;
        }
        i = i + 1;
    }
    count
}



/// The chunk list as sequences.
pub open spec fn chunk_seqs(v: Seq<Vec<PageRecord>>) -> Seq<Seq<PageRecord>> {
    v.map_values(|c: Vec<PageRecord>| c@)
}

fn slice_records(records: &Vec<PageRecord>, from: usize, to: usize) -> (r: Vec<PageRecord>)
    requires
        from <= to <= records@.len(),
    ensures
        r@ == records@.subrange(from as int, to as int),
{
    let mut out: Vec<PageRecord> = Vec::new();
    let mut i = from;
    while i < to
        invariant
            from <= i <= to <= records@.len(),
            out@ == records@.subrange(from as int, i as int),
        decreases to - i,
    {
        out.push(records[i].clone());
        assert(out@ =~= records@.subrange(from as int, i + 1));
        i = i + 1;
    }
    out
}

fn count_chunked(records: &Vec<PageRecord>, n: usize) -> (r: Vec<Vec<PageRecord>>)
    requires
        n >= 1,
    ensures
        chunk_seqs(r@) == count_chunks(records@, n as nat),
{
    let len = records.len();
    let mut out: Vec<Vec<PageRecord>> = Vec::new();
    let mut i: usize = 0;
    assert(records@.skip(0) =~= records@);
    while i < len
        invariant
            n >= 1,
            len == records@.len(),
            i <= len,
            chunk_seqs(out@) + count_chunks(records@.skip(i as int), n as nat) == count_chunks(
                records@,
                n as nat,
            ),
        decreases len - i,
    {
        let rest = len - i;
        let end = if rest <= n {
            len
        } else {
            i + n
        };
        let chunk = slice_records(records, i, end);
        let ghost before = chunk_seqs(out@);
        out.push(chunk);
        assert(chunk_seqs(out@) =~= before.push(records@.subrange(i as int, end as int)));
        if rest <= n {
            assert(records@.skip(i as int) =~= records@.subrange(i as int, end as int));
            assert(records@.skip(end as int).len() == 0);
        } else {
            assert(records@.skip(i as int).take(n as int) =~= records@.subrange(
                i as int,
                end as int,
            ));
            assert(records@.skip(i as int).skip(n as int) =~= records@.skip(end as int));
        }
        assert(chunk_seqs(out@) + count_chunks(records@.skip(end as int), n as nat) =~= before
            + count_chunks(records@.skip(i as int), n as nat));
        i = end;
    }
    assert(count_chunks(records@.skip(i as int), n as nat) =~= Seq::<Seq<PageRecord>>::empty());
    assert(chunk_seqs(out@) =~= chunk_seqs(out@) + Seq::<Seq<PageRecord>>::empty());
    out
}

fn byte_chunked(records: &Vec<PageRecord>, budget: usize) -> (r: Vec<Vec<PageRecord>>)
    ensures
        chunk_seqs(r@) == byte_fill(records@, budget as nat, 0, Seq::empty(), Seq::empty(), 0),
{
    let mut chunks: Vec<Vec<PageRecord>> = Vec::new();
    let mut current: Vec<PageRecord> = Vec::new();
    let mut used: usize = 0;
    let mut i: usize = 0;
    assert(chunk_seqs(chunks@) =~= Seq::<Seq<PageRecord>>::empty());
    assert(current@ =~= Seq::<PageRecord>::empty());
    while i < records.len()
        invariant
            i <= records@.len(),
            current@.len() == 0 ==> used == 0,
            current@.len() > 1 ==> used <= budget,
            byte_fill(records@, budget as nat, 0, Seq::empty(), Seq::empty(), 0) == byte_fill(
                records@,
                budget as nat,
                i as int,
                chunk_seqs(chunks@),
                current@,
                used as nat,
            ),
        decreases records@.len() - i,
    {
        let len = text_len(records[i].text.as_str());
        let over = current.len() > 0 && (used > budget || len > budget - used);
        if over {
            let ghost before = chunk_seqs(chunks@);
            let mut fresh: Vec<PageRecord> = Vec::new();
            core::mem::swap(&mut fresh, &mut current);
            chunks.push(fresh);
            assert(chunk_seqs(chunks@) =~= before.push(fresh@));
            current.push(records[i].clone());
            assert(current@ =~= seq![records@[i as int]]);
            used = len;
        } else {
            current.push(records[i].clone());
            used = used + len;
        }
        i = i + 1;
    }
    if current.len() > 0 {
        let ghost before = chunk_seqs(chunks@);
        chunks.push(current);
        assert(chunk_seqs(chunks@) =~= before.push(current@));
    }
    chunks
}

fn sep_chunked(records: &Vec<PageRecord>, sep: &str) -> (r: Vec<Vec<PageRecord>>)
    ensures
        chunk_seqs(r@) == sep_fill(records@, sep@, 0, Seq::empty(), Seq::empty()),
{
    let sep_len = sep.unicode_len();
    let mut chunks: Vec<Vec<PageRecord>> = Vec::new();
    let mut current: Vec<PageRecord> = Vec::new();
    let mut i: usize = 0;
    assert(chunk_seqs(chunks@) =~= Seq::<Seq<PageRecord>>::empty());
    assert(current@ =~= Seq::<PageRecord>::empty());
    while i < records.len()
        invariant
            i <= records@.len(),
            sep_len == sep@.len(),
            sep_fill(records@, sep@, 0, Seq::empty(), Seq::empty()) == sep_fill(
                records@,
                sep@,
                i as int,
                chunk_seqs(chunks@),
                current@,
            ),
        decreases records@.len() - i,
    {
        if sep_len > 0 && occurs(records[i].text.as_str(), sep) && current.len() > 0 {
            let ghost before = chunk_seqs(chunks@);
            let mut fresh: Vec<PageRecord> = Vec::new();
            core::mem::swap(&mut fresh, &mut current);
            chunks.push(fresh);
            assert(chunk_seqs(chunks@) =~= before.push(fresh@));
            current.push(records[i].clone());
            assert(current@ =~= seq![records@[i as int]]);
        } else {
            current.push(records[i].clone());
        }
        i = i + 1;
    }
    if current.len() > 0 {
        let ghost before = chunk_seqs(chunks@);
        chunks.push(current);
        assert(chunk_seqs(chunks@) =~= before.push(current@));
    }
    chunks
}

fn partition(records: &Vec<PageRecord>, by: By, size: Option<u32>, pattern: &Option<String>) -> (r:
    Vec<Vec<PageRecord>>)
    ensures
        chunk_seqs(r@) == partition_spec(
            records@,
            by,
            size,
            match pattern {
                Some(p) => Some(p@),
                None => None,
            },
        ),
{
    let n: usize = match size {
        Some(s) => if s >= 1 {
            s as usize
        } else {
            1
        },
        None => 1,
    };
    match by {
        By::Turns => count_chunked(records, n),
        By::Bytes => byte_chunked(records, n),
        By::Regex => match pattern {
            Some(p) => sep_chunked(records, p.as_str()),
            None => {
                let empty = String::new();
                let r = sep_chunked(records, empty.as_str());
                r
            },
        },
    }
}


/// Per-line progress for verbs that stream store pages.
struct PageWalk {
    sel: Sel,
    cursor: Option<u64>,
    collected: Vec<PageRecord>,
}

/// The pending `ask-each` join state.
struct AskJoin {
    slots: Vec<Option<String>>,
    outstanding: usize,
}

/// What the current line is waiting on between steps.
enum Pending {
    Idle,
    Pages(PageWalk),
    Ask,
    AskEach(AskJoin),
}

/// Optional texts as optional sequences.
pub open spec fn opt_texts(v: Seq<Option<String>>) -> Seq<Option<Seq<char>>> {
    v.map_values(
        |o: Option<String>|
            match o {
                Some(t) => Some(t@),
                None => None,
            },
    )
}

/// Optional bound values as optional views.
pub open spec fn opt_bounds(v: Seq<Option<Bound>>) -> Seq<Option<BoundSpec>> {
    v.map_values(
        |o: Option<Bound>|
            match o {
                Some(b) => Some(b@),
                None => None,
            },
    )
}

spec fn pending_view(p: Pending) -> PendingSpec {
    match p {
        Pending::Idle => PendingSpec::Idle,
        Pending::Pages(w) => PendingSpec::Pages {
            sel: w.sel,
            cursor: w.cursor,
            collected: w.collected@,
        },
        Pending::Ask => PendingSpec::Ask,
        Pending::AskEach(j) => PendingSpec::AskEach {
            slots: opt_texts(j.slots@),
            outstanding: j.outstanding as nat,
        },
    }
}

/// The suspendable query executor.
pub struct Executor {
    query: Vec<Binding>,
    pc: usize,
    slots: Vec<Option<Bound>>,
    meters: Meters,
    pending: Pending,
    finished: bool,
}

/// The slots a fresh executor starts with: lines the lowerer flagged as
/// errors are pre-bound to their error.
pub open spec fn initial_slots(q: Seq<Binding>) -> Seq<Option<BoundSpec>> {
    Seq::new(
        q.len(),
        |i: int|
            match q[i].value {
                BoundValue::Error(e) => Some(BoundSpec::Error(e.cause)),
                BoundValue::Instr(_) => None,
            },
    )
}

fn slot_number(pc: usize) -> (r: u32)
    ensures
        r == slot_of(pc as int),
{
    if pc < u32::MAX as usize {
        (pc + 1) as u32
    } else {
        u32::MAX
    }
}

impl Executor {
    /// The executor's state.
    pub closed spec fn model(&self) -> ExecModel {
        ExecModel {
            query: self.query@,
            pc: self.pc as int,
            slots: opt_bounds(self.slots@),
            meters: self.meters,
            pending: pending_view(self.pending),
            finished: self.finished,
        }
    }

    /// The executor's internal consistency.
    pub closed spec fn inv(&self) -> bool {
        &&& self.slots@.len() == self.query@.len()
        &&& self.query@.len() <= usize::MAX
        &&& self.pc <= self.query@.len()
        &&& !(self.pending is Idle) ==> self.pc < self.query@.len()
    }

    /// Builds an executor for a lowered query under a budget set.
    ///
    /// Slots for lines the lowerer already flagged as inline errors are
    /// pre-bound: a bad line still occupies its `%N`.
    pub fn new(query: Query, budgets: Budgets) -> (r: Self)
        ensures
            r.inv(),
            r.model() == (ExecModel {
                query: query@,
                pc: 0,
                slots: initial_slots(query@),
                meters: Meters {
                    budgets,
                    verbs: 0,
                    subcalls: 0,
                    partitions: 0,
                    selected_bytes: 0,
                    scanned_pages: 0,
                    scanned_bytes: 0,
                    page_effects: 0,
                },
                pending: PendingSpec::Idle,
                finished: false,
            }),
    {
        let len = query.len();
        let mut slots: Vec<Option<Bound>> = Vec::new();
        let mut i: usize = 0;
        while i < len
            invariant
                len == query@.len(),
                i <= len,
                slots@.len() == i,
                opt_bounds(slots@) == initial_slots(query@).take(i as int),
            decreases len - i,
        {
            let entry = match &query[i].value {
                BoundValue::Error(err) => Some(Bound::Error(err.cause)),
                BoundValue::Instr(_) => None,
            };
            let ghost before = slots@;
            slots.push(entry);
            proof {
                assert(slots@ == before.push(entry));
                assert(opt_bounds(slots@)[i as int] == initial_slots(query@)[i as int]);
                assert(opt_bounds(slots@).take(i as int) =~= opt_bounds(before));
            }
            assert(opt_bounds(slots@) =~= initial_slots(query@).take(i + 1));
            i = i + 1;
        }
        assert(opt_bounds(slots@) =~= initial_slots(query@));
        Executor {
            query,
            pc: 0,
            slots,
            meters: Meters::new(budgets),
            pending: Pending::Idle,
            finished: false,
        }
    }

    /// Whether a page or ask result is outstanding (the engine cancels
    /// outstanding effects on discard).
    pub fn is_suspended(&self) -> (r: bool)
        ensures
            r == !(self.model().pending is Idle),
    {
        match self.pending {
            Pending::Idle => false,
            _ => true,
        }
    }

    /// The declared output of the value bound to a one-based slot, if any.
    pub fn slot_out(&self, line: u32) -> (r: Option<Out>)
        requires
            self.inv(),
        ensures
            r == if line >= 1 && line - 1 < self.model().slots.len() {
                match self.model().slots[line - 1] {
                    Some(b) => bound_spec_out(b),
                    None => None,
                }
            } else {
                None
            },
    {
        if line == 0 {
            return None;
        }
        let index = (line - 1) as usize;
        if index >= self.slots.len() {
            return None;
        }
        match &self.slots[index] {
            Some(b) => match b {
                Bound::Records(_) => Some(Out::Records),
                Bound::Chunks(_) => Some(Out::Chunks),
                Bound::Count(_) => Some(Out::Count),
                Bound::Digest(_) => Some(Out::Digest),
                Bound::DigestList(_) => Some(Out::DigestList),
                Bound::Error(_) => None,
            },
            None => None,
        }
    }

    fn rendered(&self, line: u32) -> (r: String)
        requires
            self.inv(),
        ensures
            r@ == rendered_slot(self.model(), line),
    {
        if line == 0 {
            return String::new();
        }
        let index = (line - 1) as usize;
        if index >= self.slots.len() {
            return String::new();
        }
        match &self.slots[index] {
            Some(b) => render_bound(b),
            None => String::new(),
        }
    }

    fn cap_bound(&self, bound: Bound) -> (r: Bound)
        ensures
            r@ == cap_bound_spec(bound@, self.meters.budgets.ask_digest_bytes),
    {
        let limit = self.meters.budgets.ask_digest_bytes;
        match bound {
            Bound::Digest(text) => Bound::Digest(cap(text.as_str(), limit)),
            Bound::DigestList(list) => {
                let mut out: Vec<String> = Vec::new();
                let mut i: usize = 0;
                while i < list.len()
                    invariant
                        i <= list@.len(),
                        out@.len() == i,
                        forall|k: int|
                            0 <= k < i ==> (#[trigger] out@[k])@ == capped_chars(
                                list@[k]@,
                                limit as nat,
                            ),
                    decreases list@.len() - i,
                {
                    out.push(cap(list[i].as_str(), limit));
                    i = i + 1;
                }
                let r = Bound::DigestList(out);
                assert(out@.map_values(|s: String| s@) =~= list@.map_values(|s: String| s@).map_values(
                    |d: Seq<char>| capped_chars(d, limit as nat),
                ));
                r
            },
            other => other,
        }
    }

    /// Binds a value to the current slot and advances the program counter.
    fn bind(&mut self, bound: Bound) -> (r: StepOutcome)
        requires
            old(self).inv(),
            old(self).pc < old(self).query@.len(),
        ensures
            final(self).inv(),
            (final(self).model(), r@) == bind_spec(old(self).model(), bound@),
    {
        let slot = slot_number(self.pc);
        let capped = self.cap_bound(bound);
        let stored = clone_bound(&capped);
        let ghost before = self.slots@;
        self.slots.set(self.pc, Some(stored));
        assert(opt_bounds(self.slots@) =~= opt_bounds(before).update(self.pc as int, Some(capped@)));
        self.pc = self.pc + 1;
        self.pending = Pending::Idle;
        StepOutcome::Line { slot, bound: capped }
    }

    fn bind_error(&mut self, cause: VerbErrorCause) -> (r: StepOutcome)
        requires
            old(self).inv(),
            old(self).pc < old(self).query@.len(),
        ensures
            final(self).inv(),
            (final(self).model(), r@) == bind_spec(old(self).model(), BoundSpec::Error(cause)),
    {
        self.bind(Bound::Error(cause))
    }

    fn start_page_walk(&mut self, sel: Sel) -> (r: StepOutcome)
        requires
            old(self).inv(),
            old(self).pc < old(self).query@.len(),
        ensures
            final(self).inv(),
            (final(self).model(), r@) == page_walk_spec(old(self).model(), sel),
    {
        self.pending = Pending::Pages(PageWalk { sel, cursor: None, collected: Vec::new() });
        assert(pending_view(self.pending) == (PendingSpec::Pages {
            sel,
            cursor: None,
            collected: Seq::empty(),
        }));
        StepOutcome::NeedPages(PageRequest { sel, cursor: None })
    }

    fn finish(&mut self, value: &FinalValue) -> (r: StepOutcome)
        requires
            old(self).inv(),
        ensures
            final(self).inv(),
            final(self).model() == (ExecModel { finished: true, ..old(self).model() }),
            r@ == (StepSpec::Done {
                answer: match *value {
                    FinalValue::Literal(t) => t@,
                    FinalValue::Ref(rf) => rendered_slot(old(self).model(), rf.slot()),
                },
            }),
    {
        self.finished = true;
        match value {
            FinalValue::Literal(text) => StepOutcome::Done { answer: text.clone() },
            FinalValue::Ref(r) => {
                let answer = self.rendered(r.line());
                StepOutcome::Done { answer }
            },
        }
    }
}


impl Executor {
    /// Advances the query until it needs input, produces a line binding, or
    /// terminates. Call repeatedly, supplying inputs between calls.
    pub fn step(&mut self) -> (r: StepOutcome)
        requires
            old(self).inv(),
        ensures
            final(self).inv(),
            (final(self).model(), r@) == step_spec(old(self).model()),
    {
        if self.finished || self.pc >= self.query.len() {
            self.finished = true;
            return StepOutcome::Done { answer: String::new() };
        }
        match self.pending {
            Pending::Idle => {},
            _ => {
                // Stepping while suspended is a driver contract error;
                // results arrive through provide_pages / provide_ask.
                return StepOutcome::Failed { cause: VerbErrorCause::Parse };
            },
        }
        let pc = self.pc;
        let instr = match &self.query[pc].value {
            BoundValue::Instr(i) => Some(i.clone()),
            BoundValue::Error(_) => None,
        };
        match instr {
            Some(instr) => self.begin_instruction(&instr),
            None => {
                // A pre-lowered error binding: re-surface it and advance so
                // the caller sees every line, then keep going.
                let slot = slot_number(pc);
                let bound = match &self.slots[pc] {
                    Some(b) => clone_bound(b),
                    None => Bound::Error(VerbErrorCause::Parse),
                };
                self.pc = pc + 1;
                StepOutcome::Line { slot, bound }
            },
        }
    }

    fn begin_instruction(&mut self, instr: &Instr) -> (r: StepOutcome)
        requires
            old(self).inv(),
            old(self).pc < old(self).query@.len(),
            old(self).pending is Idle,
            !old(self).finished,
            old(self).query@[old(self).pc as int].value == BoundValue::Instr(*instr),
        ensures
            final(self).inv(),
            (final(self).model(), r@) == begin_spec(old(self).model(), *instr),
    {
        // Verb count is a query-level meter: exceeding it terminates the
        // whole query rather than binding an inline error.
        self.meters.verbs = self.meters.verbs.saturating_add(1);
        if self.meters.verbs > self.meters.budgets.verb_count {
            return StepOutcome::Failed { cause: VerbErrorCause::Budget };
        }
        match instr {
            Instr::Grep { sel, .. } => self.start_page_walk(*sel),
            Instr::Slice { sel } => self.start_page_walk(*sel),
            Instr::Head { sel, .. } => self.start_page_walk(*sel),
            Instr::Tail { sel, .. } => self.start_page_walk(*sel),
            Instr::Count { sel, .. } => self.start_page_walk(*sel),
            Instr::Partition { sel, .. } => self.start_page_walk(*sel),
            Instr::Ask { sel, question, sample_k } => {
                if !self.meters.charge(BudgetKind::TotalSubcalls, 1) {
                    return self.bind_error(VerbErrorCause::Budget);
                }
                let context = match sel {
                    Sel::Ref(r) => self.rendered(r.line()),
                    _ => String::new(),
                };
                let bytes = text_len(context.as_str());
                if !self.meters.charge(BudgetKind::SelectedBytes, bytes as u64) {
                    return self.bind_error(VerbErrorCause::Budget);
                }
                self.pending = Pending::Ask;
                let request = AskRequest {
                    index: 0,
                    question: question.clone(),
                    context,
                    sample_k: *sample_k,
                };
                let ghost view = request@;
                let requests = vec![request];
                assert(ask_views(requests@) =~= seq![view]);
                StepOutcome::NeedAsk(requests)
            },
            Instr::AskEach { chunks, question } => self.begin_ask_each(chunks.line(), question),
            Instr::Final { value } => self.finish(value),
        }
    }

    fn begin_ask_each(&mut self, chunks_line: u32, question: &String) -> (r: StepOutcome)
        requires
            old(self).inv(),
            old(self).pc < old(self).query@.len(),
        ensures
            final(self).inv(),
            (final(self).model(), r@) == begin_ask_each_spec(
                old(self).model(),
                chunks_line,
                question@,
            ),
    {
        if chunks_line == 0 {
            return self.bind_error(VerbErrorCause::BadRef);
        }
        let index = (chunks_line - 1) as usize;
        if index >= self.slots.len() {
            return self.bind_error(VerbErrorCause::BadRef);
        }
        let chunks = match &self.slots[index] {
            Some(Bound::Chunks(c)) => clone_chunks(c),
            _ => {
                return self.bind_error(VerbErrorCause::BadRef);
            },
        };
        let ghost cs = chunk_seqs(chunks@);
        let n = chunks.len();
        if n == 0 {
            let empty: Vec<String> = Vec::new();
            assert(empty@.map_values(|s: String| s@) =~= Seq::<Seq<char>>::empty());
            return self.bind(Bound::DigestList(empty));
        }
        if !self.meters.charge(BudgetKind::TotalSubcalls, n as u64) {
            return self.bind_error(VerbErrorCause::Budget);
        }
        let ghost m1 = self.meters;
        assert(old(self).model().slots[chunks_line - 1] == Some(BoundSpec::Chunks(cs)));
        assert(self.model() == (ExecModel { meters: self.meters, ..old(self).model() }));
        let mut requests: Vec<AskRequest> = Vec::new();
        let mut k: usize = 0;
        while k < n
            invariant
                self.inv(),
                chunks_line >= 1,
                chunks_line - 1 < old(self).model().slots.len(),
                old(self).model().slots[chunks_line - 1] == Some(BoundSpec::Chunks(cs)),
                charged(old(self).model().meters, BudgetKind::TotalSubcalls, n as u64) == (m1, true),
                self.model() == (ExecModel { meters: self.meters, ..old(self).model() }),
                old(self).pc < old(self).query@.len(),
                self.pc == old(self).pc,
                self.query@ == old(self).query@,
                self.slots@ == old(self).slots@,
                self.pending == old(self).pending,
                self.finished == old(self).finished,
                n == chunks@.len(),
                cs == chunk_seqs(chunks@),
                k <= n,
                charge_chunks(m1, cs, 0) == charge_chunks(self.meters, cs, k as int),
                ask_views(requests@) == ask_each_requests(cs, question@).take(
                    k as int,
                ),
            decreases n - k,
        {
            let context = render_records(&chunks[k]);
            assert(cs[k as int] == chunks@[k as int]@);
            assert(context@ == render_records_spec(cs[k as int]));
            let bytes = text_len(context.as_str());
            let ghost meters_before = self.meters;
            if !self.meters.charge(BudgetKind::SelectedBytes, bytes as u64) {
                assert(charge_chunks(meters_before, cs, k as int) == (self.meters, false));
                assert(charge_chunks(m1, cs, 0) == (self.meters, false));
                return self.bind_error(VerbErrorCause::Budget);
            }
            assert(charge_chunks(meters_before, cs, k as int) == charge_chunks(
                self.meters,
                cs,
                k + 1,
            ));
            let index32: u32 = if k <= u32::MAX as usize {
                k as u32
            } else {
                u32::MAX
            };
            let ghost before = ask_views(requests@);
            let ghost expected = ask_each_requests(cs, question@)[k as int];
            assert(expected.index == index32);
            assert(expected.context == context@);
            let request = AskRequest {
                index: index32,
                question: question.clone(),
                context,
                sample_k: None,
            };
            assert(request@ == expected);
            requests.push(request);
            assert(ask_views(requests@) =~= before.push(expected));
            assert(ask_views(requests@) =~= ask_each_requests(
                cs,
                question@,
            ).take(k + 1));
            k = k + 1;
        }
        assert(ask_views(requests@) =~= ask_each_requests(cs, question@));
        let mut slots: Vec<Option<String>> = Vec::new();
        let mut j: usize = 0;
        while j < n
            invariant
                j <= n,
                slots@.len() == j,
                forall|q: int| 0 <= q < j ==> slots@[q] is None,
            decreases n - j,
        {
            slots.push(None);
            j = j + 1;
        }
        assert(opt_texts(slots@) =~= Seq::new(cs.len(), |q: int| None::<Seq<char>>));
        self.pending = Pending::AskEach(AskJoin { slots, outstanding: n });
        StepOutcome::NeedAsk(requests)
    }

    /// Supplies a store page for the suspended page-walking line.
    ///
    /// Returns the next step outcome: another page request or the completed
    /// line binding.
    pub fn provide_pages(&mut self, page: Page) -> (r: StepOutcome)
        requires
            old(self).inv(),
        ensures
            final(self).inv(),
            (final(self).model(), r@) == provide_pages_spec(
                old(self).model(),
                page.records@,
                page.next_cursor,
            ),
    {
        let mut taken = Pending::Idle;
        core::mem::swap(&mut taken, &mut self.pending);
        let mut walk = match taken {
            Pending::Pages(w) => w,
            _ => {
                return StepOutcome::Failed { cause: VerbErrorCause::Parse };
            },
        };
        let mut records = page.records;
        let mut scanned: u64 = 0;
        let mut i: usize = 0;
        while i < records.len()
            invariant
                i <= records@.len(),
                scanned == scanned_of(records@.take(i as int)),
            decreases records@.len() - i,
        {
            assert(records@.take(i + 1).drop_last() =~= records@.take(i as int));
            let len = text_len(records[i].text.as_str());
            scanned = scanned.saturating_add(len as u64);
            i = i + 1;
        }
        assert(records@.take(i as int) =~= records@);
        if !self.meters.charge(BudgetKind::PageEffects, 1) {
            return self.bind_error(VerbErrorCause::Budget);
        }
        if !self.meters.charge(BudgetKind::ScannedPages, 1) {
            return self.bind_error(VerbErrorCause::Budget);
        }
        if !self.meters.charge(BudgetKind::ScannedBytes, scanned) {
            return self.bind_error(VerbErrorCause::Budget);
        }
        walk.collected.append(&mut records);
        match page.next_cursor {
            Some(cursor) => {
                walk.cursor = Some(cursor);
                let sel = walk.sel;
                self.pending = Pending::Pages(walk);
                StepOutcome::NeedPages(PageRequest { sel, cursor: Some(cursor) })
            },
            None => self.finish_page_instruction(walk.collected),
        }
    }

    fn finish_page_instruction(&mut self, records: Vec<PageRecord>) -> (r: StepOutcome)
        requires
            old(self).inv(),
            old(self).pc < old(self).query@.len(),
        ensures
            final(self).inv(),
            (final(self).model(), r@) == finish_pages_spec(old(self).model(), records@),
    {
        let instr = match &self.query[self.pc].value {
            BoundValue::Instr(i) => i.clone(),
            BoundValue::Error(_) => {
                return self.bind_error(VerbErrorCause::Parse);
            },
        };
        let len = records.len();
        match instr {
            Instr::Slice { .. } => self.bind(Bound::Records(records)),
            Instr::Head { n, .. } => {
                let k = if (n as usize) <= len {
                    n as usize
                } else {
                    len
                };
                let kept = slice_records(&records, 0, k);
                assert(records@.subrange(0, k as int) =~= records@.take(k as int));
                self.bind(Bound::Records(kept))
            },
            Instr::Tail { n, .. } => {
                let skip = if (n as usize) <= len {
                    len - n as usize
                } else {
                    0
                };
                let kept = slice_records(&records, skip, len);
                assert(records@.subrange(skip as int, len as int) =~= records@.skip(skip as int));
                self.bind(Bound::Records(kept))
            },
            Instr::Grep { pattern, ctx, .. } => {
                let hits = grep(&records, pattern.as_str(), ctx);
                self.bind(Bound::Records(hits))
            },
            Instr::Count { pattern, .. } => {
                let count = match &pattern {
                    Some(p) => count_matching(&records, p.as_str()),
                    None => len as u64,
                };
                self.bind(Bound::Count(count))
            },
            Instr::Partition { by, size, pattern, .. } => {
                let chunks = partition(&records, by, size, &pattern);
                if !self.meters.charge(BudgetKind::PartitionCount, chunks.len() as u64) {
                    return self.bind_error(VerbErrorCause::Budget);
                }
                self.bind(Bound::Chunks(chunks))
            },
            _ => self.bind_error(VerbErrorCause::Parse),
        }
    }

    /// Supplies one or more `ask` results for the suspended ask line.
    pub fn provide_ask(&mut self, results: Vec<AskResult>) -> (r: StepOutcome)
        requires
            old(self).inv(),
        ensures
            final(self).inv(),
            (final(self).model(), r@) == provide_ask_spec(old(self).model(), results@),
    {
        let limit = self.meters.budgets.ask_digest_bytes;
        let mut taken = Pending::Idle;
        core::mem::swap(&mut taken, &mut self.pending);
        match taken {
            Pending::Ask => {
                let answer = if results.len() > 0 {
                    cap(results[0].answer.as_str(), limit)
                } else {
                    String::new()
                };
                self.bind(Bound::Digest(answer))
            },
            Pending::AskEach(mut join) => {
                let ghost s0 = opt_texts(join.slots@);
                let ghost o0 = join.outstanding as nat;
                let mut i: usize = 0;
                while i < results.len()
                    invariant
                        i <= results@.len(),
                        rejoin(s0, o0, results@, 0, limit) == rejoin(
                            opt_texts(join.slots@),
                            join.outstanding as nat,
                            results@,
                            i as int,
                            limit,
                        ),
                    decreases results@.len() - i,
                {
                    let index = results[i].index as usize;
                    if index < join.slots.len() && join.slots[index].is_none() {
                        let capped = cap(results[i].answer.as_str(), limit);
                        let ghost before = join.slots@;
                        join.slots.set(index, Some(capped));
                        assert(opt_texts(join.slots@) =~= opt_texts(before).update(
                            index as int,
                            Some(capped_chars(results@[i as int].answer@, limit as nat)),
                        ));
                        join.outstanding = if join.outstanding > 0 {
                            join.outstanding - 1
                        } else {
                            0
                        };
                    }
                    i = i + 1;
                }
                if join.outstanding == 0 {
                    let mut digests: Vec<String> = Vec::new();
                    let mut k: usize = 0;
                    let mut source = join.slots;
                    let ghost sv = opt_texts(source@);
                    let n = source.len();
                    while k < n
                        invariant
                            k <= n,
                            n == source@.len(),
                            sv == opt_texts(source@),
                            digests@.len() == k,
                            forall|q: int|
                                0 <= q < k ==> (#[trigger] digests@[q])@ == match sv[q] {
                                    Some(t) => t,
                                    None => Seq::<char>::empty(),
                                },
                        decreases n - k,
                    {
                        let d = match &source[k] {
                            Some(t) => t.clone(),
                            None => String::new(),
                        };
                        digests.push(d);
                        k = k + 1;
                    }
                    assert(digests@.map_values(|s: String| s@) =~= sv.map_values(
                        |d: Option<Seq<char>>|
                            match d {
                                Some(t) => t,
                                None => Seq::empty(),
                            },
                    ));
                    self.bind(Bound::DigestList(digests))
                } else {
                    self.pending = Pending::AskEach(join);
                    StepOutcome::AwaitingMore
                }
            },
            _ => StepOutcome::Failed { cause: VerbErrorCause::Parse },
        }
    }
}

/// Value-cap law: a capped digest never exceeds its byte budget.
pub proof fn lemma_digest_within_cap(text: Seq<char>, limit: nat)
    ensures
        byte_count(capped_chars(text, limit)) <= limit,
{
    let b = encode_utf8(text);
    vstd::utf8::encode_utf8_valid_utf8(text);
    let e = head_excerpt(b, limit);
    if b.len() <= limit {
        vstd::utf8::encode_utf8_decode_utf8(text);
    } else {
        let f = floor_boundary(b, limit as int);
        lemma_floor_boundary(b, limit as int);
        vstd::utf8::valid_utf8_split(b, f);
        vstd::utf8::decode_utf8_encode_utf8(e);
    }
}

/// An aggregate meter running out while pages stream in binds an inline
/// budget error to the current slot and lets the script continue: the
/// executor is ready for the next line, not finished.
pub proof fn lemma_budget_error_continues(m: ExecModel, records: Seq<PageRecord>, next: Option<u64>)
    requires
        m.pending is Pages,
        provide_pages_spec(m, records, next).1 matches StepSpec::Line { bound, .. } && bound
            == BoundSpec::Error(VerbErrorCause::Budget),
    ensures
        provide_pages_spec(m, records, next).0.pending is Idle,
        provide_pages_spec(m, records, next).0.pc == m.pc + 1,
        provide_pages_spec(m, records, next).0.finished == m.finished,
{
}

/// A line binding lands in the slot the program counter names, and the
/// program counter moves to the next line.
pub proof fn lemma_bind_advances(m: ExecModel, b: BoundSpec)
    ensures
        bind_spec(m, b).0.pc == m.pc + 1,
        bind_spec(m, b).1 matches StepSpec::Line { slot, .. } && slot == slot_of(m.pc),
        bind_spec(m, b).0.pending is Idle,
{
}

} // verus!
