//! Typed intermediate representation for query scripts.

use core::marker::PhantomData;

use vstd::prelude::*;

use crate::protocol::error::VerbErrorCause;

verus! {

/// The result type declared by a query instruction.
#[derive(Clone, Copy, Debug, PartialEq, Eq, Structural)]
pub enum Out {
    /// A selection of transcript records.
    Records,
    /// A list of partitioned transcript selections.
    Chunks,
    /// An integer count.
    Count,
    /// One capped sub-model digest.
    Digest,
    /// Capped sub-model digests, ordered by partition index.
    DigestList,
    /// The query's final answer.
    Answer,
}

/// Marker for a reference whose output must be [`Out::Records`].
///
/// It has no public constructor and is never built.
#[derive(Clone, Copy, Debug, PartialEq, Eq)]
pub struct Records(());

/// Marker for a reference whose output must be [`Out::Chunks`].
///
/// It has no public constructor and is never built.
#[derive(Clone, Copy, Debug, PartialEq, Eq)]
pub struct Chunks(());

/// Marker for a reference allowed to name any successful output.
///
/// It has no public constructor and is never built.
#[derive(Clone, Copy, Debug, PartialEq, Eq)]
pub struct Any(());

/// A one-based, backward reference to a typed query result slot.
#[derive(Debug, PartialEq, Eq)]
pub struct Ref<T> {
    /// One-based line/slot number, as written by `%N`.
    line: u32,
    marker: PhantomData<T>,
}

impl<T> Clone for Ref<T> {
    fn clone(&self) -> (res: Self)
        ensures
            res == *self,
    {
        Ref { line: self.line, marker: PhantomData }
    }
}

impl<T> Copy for Ref<T> {

}

impl<T> Ref<T> {
    /// The slot named.
    pub closed spec fn slot(self) -> u32 {
        self.line
    }

    /// Constructs a typed reference to a one-based result slot.
    pub fn new(line: u32) -> (r: Self)
        ensures
            r.slot() == line,
    {
        Ref { line, marker: PhantomData }
    }

    /// Returns the one-based result slot named by this reference.
    pub fn line(self) -> (r: u32)
        ensures
            r == self.slot(),
    {
        self.line
    }
}

/// The unit attached to an inclusive-start, exclusive-end selection range.
#[derive(Clone, Copy, Debug, PartialEq, Eq, Structural)]
pub enum RangeUnit {
    /// User-turn indices.
    Turn,
    /// Transcript record sequence numbers.
    Sequence,
    /// Offsets in the store byte view.
    Byte,
}

/// An inclusive-start, exclusive-end transcript selection.
#[derive(Clone, Copy, Debug, PartialEq, Eq, Structural)]
pub struct Range {
    /// The coordinate system of `start` and `end`.
    pub unit: RangeUnit,
    /// The included lower bound.
    pub start: u64,
    /// The excluded upper bound.
    pub end: u64,
}

/// A transcript selection used by record-reading instructions.
#[derive(Clone, Copy, Debug, PartialEq, Eq)]
pub enum Sel {
    /// Records produced by an earlier line.
    Ref(Ref<Records>),
    /// A coordinate range in the transcript.
    Range(Range),
    /// The whole transcript, used when the surface omits a selector.
    Whole,
}

/// The partitioning strategy for [`Instr::Partition`].
#[derive(Clone, Copy, Debug, PartialEq, Eq, Structural)]
pub enum By {
    /// Split on user-turn boundaries.
    Turns,
    /// Split after a byte count.
    Bytes,
    /// Split at matches of a pattern.
    Regex,
}

/// An open event-kind name used by the `grep --kind` filter.
#[derive(Debug, PartialEq, Eq)]
pub struct EventKind(String);

impl Clone for EventKind {
    fn clone(&self) -> (res: Self)
        ensures
            res == *self,
    {
        EventKind(self.0.clone())
    }
}

impl EventKind {
    /// The preserved spelling.
    pub closed spec fn name(self) -> Seq<char> {
        self.0@
    }

    /// Constructs an event-kind name after surface validation.
    pub fn new(name: String) -> (r: Self)
        ensures
            r.name() == name@,
    {
        EventKind(name)
    }

    /// Returns the preserved event-kind spelling.
    pub fn as_str(&self) -> (r: &str)
        ensures
            r@ == self.name(),
    {
        self.0.as_str()
    }
}

/// The literal-or-reference input accepted by [`Instr::Final`].
#[derive(Debug, PartialEq, Eq)]
pub enum FinalValue {
    /// A literal answer.
    Literal(String),
    /// Any successful output from an earlier line.
    Ref(Ref<Any>),
}

impl Clone for FinalValue {
    fn clone(&self) -> (res: Self)
        ensures
            res == *self,
    {
        match self {
            FinalValue::Literal(s) => FinalValue::Literal(s.clone()),
            FinalValue::Ref(r) => FinalValue::Ref(*r),
        }
    }
}

/// One instruction in the closed query IR.
#[derive(Debug, PartialEq, Eq)]
pub enum Instr {
    /// Search selected records for a pattern, with optional context and kind.
    Grep {
        /// Versioned-dialect pattern.
        pattern: String,
        /// Records to search.
        sel: Sel,
        /// Number of surrounding records to include.
        ctx: u16,
        /// Optional event-kind restriction.
        kind: Option<EventKind>,
    },
    /// Select records without transforming them.
    Slice {
        /// Records or coordinate range to select.
        sel: Sel,
    },
    /// Select the first `n` records.
    Head {
        /// Records to read.
        sel: Sel,
        /// Maximum record count.
        n: u32,
    },
    /// Select the last `n` records.
    Tail {
        /// Records to read.
        sel: Sel,
        /// Maximum record count.
        n: u32,
    },
    /// Count all selected records or only pattern matches.
    Count {
        /// Optional pattern.
        pattern: Option<String>,
        /// Records to count.
        sel: Sel,
    },
    /// Divide a selection into chunks.
    Partition {
        /// Records to divide.
        sel: Sel,
        /// Partitioning strategy.
        by: By,
        /// Chunk size, required for turn/byte partitioning.
        size: Option<u32>,
        /// Separator pattern, required for pattern partitioning.
        pattern: Option<String>,
    },
    /// Ask a sub-model one question over a selection.
    Ask {
        /// Records supplied to the sub-model.
        sel: Sel,
        /// Question supplied to the sub-model.
        question: String,
        /// Optional deterministic sample count.
        sample_k: Option<u8>,
    },
    /// Ask the same question independently over each earlier chunk.
    AskEach {
        /// A chunk-list output from an earlier `partition` line.
        chunks: Ref<Chunks>,
        /// Question supplied for every chunk.
        question: String,
    },
    /// Terminate the query with a literal or earlier value.
    Final {
        /// The answer source.
        value: FinalValue,
    },
}

fn clone_opt_string(s: &Option<String>) -> (r: Option<String>)
    ensures
        r == *s,
{
    match s {
        Some(v) => Some(v.clone()),
        None => None,
    }
}

impl Clone for Instr {
    fn clone(&self) -> (res: Self)
        ensures
            res == *self,
    {
        match self {
            Instr::Grep { pattern, sel, ctx, kind } => Instr::Grep {
                pattern: pattern.clone(),
                sel: *sel,
                ctx: *ctx,
                kind: match kind {
                    Some(k) => Some(k.clone()),
                    None => None,
                },
            },
            Instr::Slice { sel } => Instr::Slice { sel: *sel },
            Instr::Head { sel, n } => Instr::Head { sel: *sel, n: *n },
            Instr::Tail { sel, n } => Instr::Tail { sel: *sel, n: *n },
            Instr::Count { pattern, sel } => Instr::Count {
                pattern: clone_opt_string(pattern),
                sel: *sel,
            },
            Instr::Partition { sel, by, size, pattern } => Instr::Partition {
                sel: *sel,
                by: *by,
                size: *size,
                pattern: clone_opt_string(pattern),
            },
            Instr::Ask { sel, question, sample_k } => Instr::Ask {
                sel: *sel,
                question: question.clone(),
                sample_k: *sample_k,
            },
            Instr::AskEach { chunks, question } => Instr::AskEach {
                chunks: *chunks,
                question: question.clone(),
            },
            Instr::Final { value } => Instr::Final { value: value.clone() },
        }
    }
}

/// The output type declared by an instruction variant.
pub open spec fn instr_out(i: Instr) -> Out {
    match i {
        Instr::Grep { .. } | Instr::Slice { .. } | Instr::Head { .. } | Instr::Tail { .. } =>
            Out::Records,
        Instr::Count { .. } => Out::Count,
        Instr::Partition { .. } => Out::Chunks,
        Instr::Ask { .. } => Out::Digest,
        Instr::AskEach { .. } => Out::DigestList,
        Instr::Final { .. } => Out::Answer,
    }
}

impl Instr {
    /// Returns the output type declared by this instruction variant.
    pub fn output(&self) -> (r: Out)
        ensures
            r == instr_out(*self),
    {
        match self {
            Instr::Grep { .. } | Instr::Slice { .. } | Instr::Head { .. } | Instr::Tail { .. } => {
                Out::Records
            },
            Instr::Count { .. } => Out::Count,
            Instr::Partition { .. } => Out::Chunks,
            Instr::Ask { .. } => Out::Digest,
            Instr::AskEach { .. } => Out::DigestList,
            Instr::Final { .. } => Out::Answer,
        }
    }
}

/// An inline error value bound to a query result slot.
#[derive(Debug, PartialEq, Eq)]
pub struct VerbError {
    /// Best-effort first token from the line, empty only when none exists.
    pub verb: String,
    /// Protocol-defined reason for the failure.
    pub cause: VerbErrorCause,
}

impl Clone for VerbError {
    fn clone(&self) -> (res: Self)
        ensures
            res == *self,
    {
        VerbError { verb: self.verb.clone(), cause: self.cause }
    }
}

/// The value bound by one nonempty text-surface line.
#[derive(Debug, PartialEq, Eq)]
pub enum BoundValue {
    /// A successfully lowered instruction.
    Instr(Instr),
    /// An inline verb error; later typed references cannot use this slot.
    Error(VerbError),
}

impl Clone for BoundValue {
    fn clone(&self) -> (res: Self)
        ensures
            res == *self,
    {
        match self {
            BoundValue::Instr(i) => BoundValue::Instr(i.clone()),
            BoundValue::Error(e) => BoundValue::Error(e.clone()),
        }
    }
}

/// One one-based result-slot binding produced from a nonempty script line.
#[derive(Debug, PartialEq, Eq)]
pub struct Binding {
    /// One-based result slot assigned to the line.
    pub slot: u32,
    /// The instruction or inline error value bound to the slot.
    pub value: BoundValue,
}

impl Clone for Binding {
    fn clone(&self) -> (res: Self)
        ensures
            res == *self,
    {
        Binding { slot: self.slot, value: self.value.clone() }
    }
}

/// The output a bound value declares, or `None` for an error.
pub open spec fn bound_out(v: BoundValue) -> Option<Out> {
    match v {
        BoundValue::Instr(i) => Some(instr_out(i)),
        BoundValue::Error(_) => None,
    }
}

impl Binding {
    /// Returns this binding's declared output, or `None` for an error value.
    pub fn output(&self) -> (r: Option<Out>)
        ensures
            r == bound_out(self.value),
    {
        match &self.value {
            BoundValue::Instr(instruction) => Some(instruction.output()),
            BoundValue::Error(_) => None,
        }
    }
}

/// A lowered query in source order, with one binding per nonempty line.
pub type Query = Vec<Binding>;

} // verus!
