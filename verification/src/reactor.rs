//! Static validation of reactor declarations.
//!
//! A reactor is a biased selection loop over declared event sources, with
//! optional `initialize`, `before_poll`, and `after_event` phase blocks. Each
//! source arm declares an identifier, a readiness class, and scheduling
//! attributes. This module holds the declaration as plain values and decides
//! whether it is admissible: phases are declared exactly once, identifiers
//! and source places are unique, shutdown and terminal sources obey their
//! restrictions, relations name known sources, the scheduling and
//! buffered-yield relations are acyclic, lexical order agrees with every
//! scheduling relation, and no may-remain-ready source can starve a
//! protected one.

pub mod assemble;
pub mod graph;
pub mod place;
pub mod service;
pub mod stages;
pub mod syntax;

use vstd::prelude::*;

use crate::reactor::graph::{find_cycle, first_cycle, lemma_cycle_not_acyclic};
use crate::reactor::stages::{
    arm_refusal, first_last_arm, last_refusal, lemma_relations_known, lexical_refusal,
    phase_refusal, push_before_edges, push_last_edges, push_shutdown_edges, push_yield_edges,
    relation_refusal, starvation_refusal,
};

verus! {

/// The maximum drain window a source may declare.
pub const MAX_DRAIN: usize = 4096;

/// Whether a source can stay ready across polls.
#[derive(Clone, Copy, Debug, PartialEq, Eq, Structural)]
pub enum ReadinessKind {
    /// The source may remain ready indefinitely (it can starve later arms).
    MayRemainReady,
    /// The source goes quiet after yielding its items.
    Quiescent,
}

/// One of the three phase positions of the loop.
#[derive(Clone, Copy, Debug, PartialEq, Eq, Structural)]
pub enum PhaseName {
    /// Runs once before the loop.
    Initialize,
    /// Runs before every poll.
    BeforePoll,
    /// Runs after every handled event.
    AfterEvent,
}

/// One declared source arm, as plain values.
#[derive(Debug, PartialEq, Eq)]
pub struct SourceArm {
    /// The stable source identifier.
    pub id: String,
    /// Declared readiness class.
    pub readiness: ReadinessKind,
    /// `#[shutdown]`: the arm ends the reactor and must lead.
    pub shutdown: bool,
    /// `#[terminal]`: the arm's first item exits the loop.
    pub terminal: bool,
    /// `#[before(target)]` relations, in declaration order.
    pub before: Vec<String>,
    /// `#[last]`: the arm is the global last source.
    pub last: bool,
    /// A starvation waiver was declared.
    pub starvation_waived: bool,
    /// A `#[when(..)]` guard was declared.
    pub guarded: bool,
    /// `#[yields_to(target, when = buffered)]`.
    pub yields_to: Option<String>,
    /// `#[drain(max = N)]`.
    pub drain: Option<usize>,
    /// The source expression is a path or a field place.
    pub persistent_place: bool,
    /// The source place, whitespace removed.
    pub place: String,
}

/// A reactor declaration, as plain values.
#[derive(Debug, PartialEq, Eq)]
pub struct ReactorDecl {
    /// The `required_phases` list, in declaration order.
    pub required_phases: Vec<String>,
    /// An `initialize` block is present.
    pub initialize: bool,
    /// A `before_poll` block is present.
    pub before_poll: bool,
    /// An `after_event` block is present.
    pub after_event: bool,
    /// Source arms in lexical order.
    pub arms: Vec<SourceArm>,
}

/// Why one scheduling relation exists.
#[derive(Clone, Copy, Debug, PartialEq, Eq, Structural)]
pub enum EdgeReason {
    /// `#[before(..)]` relation `relation` of arm `arm`.
    Before {
        /// The declaring arm.
        arm: usize,
        /// Index among its relations.
        relation: usize,
    },
    /// Shutdown sources lead every other source.
    ShutdownPrefix,
    /// The global last source follows every other source.
    Last {
        /// The last arm.
        arm: usize,
    },
    /// A buffered yield.
    BufferedYield,
}

/// One scheduling relation: `from` must precede `to`.
#[derive(Clone, Copy, Debug, PartialEq, Eq, Structural)]
pub struct Edge {
    /// The predecessor arm.
    pub from: usize,
    /// The successor arm.
    pub to: usize,
    /// Why.
    pub reason: EdgeReason,
}

/// Which relation graph a cycle was found in.
#[derive(Clone, Copy, Debug, PartialEq, Eq, Structural)]
pub enum CycleKind {
    /// `before`, shutdown-prefix, and last relations.
    Scheduling,
    /// Buffered yields.
    BufferedYield,
}

/// A refused declaration: the first rule it breaks, with arm indices.
#[derive(Debug, PartialEq, Eq)]
pub enum Violation {
    /// No source arm was declared.
    NoArms,
    /// A required phase name is not one of the three phases.
    UnknownRequiredPhase {
        /// Index in `required_phases`.
        index: usize,
    },
    /// A required phase is listed twice.
    DuplicateRequiredPhase {
        /// Index of the second listing.
        index: usize,
    },
    /// A required phase has no block.
    MissingPhaseBlock {
        /// The phase.
        phase: PhaseName,
    },
    /// A phase block is present but not required.
    UnrequiredPhaseBlock {
        /// The phase.
        phase: PhaseName,
    },
    /// Two arms share an identifier.
    DuplicateSourceId {
        /// The later arm.
        arm: usize,
    },
    /// A source is a temporary expression, not a persistent place.
    NonPersistentSource {
        /// The arm.
        arm: usize,
    },
    /// Two arms poll the same place.
    DuplicatePlace {
        /// The earlier arm.
        first: usize,
        /// The later arm.
        second: usize,
    },
    /// A shutdown source is guarded, drained, or yields.
    ShutdownGuarded {
        /// The arm.
        arm: usize,
    },
    /// A shutdown source is declared last.
    ShutdownLast {
        /// The arm.
        arm: usize,
    },
    /// A shutdown source waives starvation protection.
    ShutdownWaiver {
        /// The arm.
        arm: usize,
    },
    /// A terminal source is drained.
    TerminalDrained {
        /// The arm.
        arm: usize,
    },
    /// A `before` relation names an unknown source.
    UnknownBeforeTarget {
        /// The arm.
        arm: usize,
        /// Index among its relations.
        relation: usize,
    },
    /// A `yields_to` relation names an unknown source.
    UnknownYieldTarget {
        /// The arm.
        arm: usize,
    },
    /// A source yields to itself.
    SelfYield {
        /// The arm.
        arm: usize,
    },
    /// A second source is declared last.
    LastConflict {
        /// The second last arm.
        arm: usize,
        /// The first last arm.
        first: usize,
    },
    /// The last source is followed by another source.
    LastNotFinal {
        /// The last arm.
        arm: usize,
    },
    /// A relation graph has a cycle; the nodes are listed along it, the
    /// first repeated at the end.
    Cycle {
        /// Which graph.
        kind: CycleKind,
        /// The cycle's arms.
        nodes: Vec<usize>,
    },
    /// Lexical order contradicts a scheduling relation.
    LexicalOrder {
        /// The violated relation.
        edge: Edge,
    },
    /// A may-remain-ready source can starve a later protected source.
    Starvation {
        /// The earlier may-remain-ready arm.
        dominant: usize,
        /// The later protected arm.
        victim: usize,
    },
}

/// A violation with its cycle as a sequence.
pub enum ViolationSpec {
    /// Any violation but a cycle.
    Plain(Violation),
    /// A cycle.
    Cycle {
        /// Which graph.
        kind: CycleKind,
        /// The cycle's arms.
        nodes: Seq<usize>,
    },
}

impl View for Violation {
    type V = ViolationSpec;

    open spec fn view(&self) -> ViolationSpec {
        match self {
            Violation::Cycle { kind, nodes } => ViolationSpec::Cycle { kind: *kind, nodes: nodes@ },
            other => ViolationSpec::Plain(*other),
        }
    }
}

impl Violation {
    /// The diagnostic code of the rule broken.
    pub open spec fn code_spec(&self) -> Seq<char> {
        match self {
            Violation::NoArms => "KTR000"@,
            Violation::UnknownRequiredPhase { .. } => "KTR011"@,
            Violation::DuplicateRequiredPhase { .. } => "KTR011"@,
            Violation::MissingPhaseBlock { .. } => "KTR011"@,
            Violation::UnrequiredPhaseBlock { .. } => "KTR011"@,
            Violation::DuplicateSourceId { .. } => "KTR001"@,
            Violation::NonPersistentSource { .. } => "KTR015"@,
            Violation::DuplicatePlace { .. } => "KTR020"@,
            Violation::ShutdownGuarded { .. } => "KTR005"@,
            Violation::ShutdownLast { .. } => "KTR005"@,
            Violation::ShutdownWaiver { .. } => "KTR005"@,
            Violation::TerminalDrained { .. } => "KTR008"@,
            Violation::UnknownBeforeTarget { .. } => "KTR002"@,
            Violation::UnknownYieldTarget { .. } => "KTR002"@,
            Violation::SelfYield { .. } => "KTR010"@,
            Violation::LastConflict { .. } => "KTR004"@,
            Violation::LastNotFinal { .. } => "KTR004"@,
            Violation::Cycle { kind, .. } => match kind {
                CycleKind::Scheduling => "KTR003"@,
                CycleKind::BufferedYield => "KTR010"@,
            },
            Violation::LexicalOrder { .. } => "KTR016"@,
            Violation::Starvation { .. } => "KTR007"@,
        }
    }

    /// The diagnostic code of the rule broken.
    pub fn code(&self) -> (r: &'static str)
        ensures
            r@ == self.code_spec(),
    {
        match self {
            Violation::NoArms => "KTR000",
            Violation::UnknownRequiredPhase { .. } => "KTR011",
            Violation::DuplicateRequiredPhase { .. } => "KTR011",
            Violation::MissingPhaseBlock { .. } => "KTR011",
            Violation::UnrequiredPhaseBlock { .. } => "KTR011",
            Violation::DuplicateSourceId { .. } => "KTR001",
            Violation::NonPersistentSource { .. } => "KTR015",
            Violation::DuplicatePlace { .. } => "KTR020",
            Violation::ShutdownGuarded { .. } => "KTR005",
            Violation::ShutdownLast { .. } => "KTR005",
            Violation::ShutdownWaiver { .. } => "KTR005",
            Violation::TerminalDrained { .. } => "KTR008",
            Violation::UnknownBeforeTarget { .. } => "KTR002",
            Violation::UnknownYieldTarget { .. } => "KTR002",
            Violation::SelfYield { .. } => "KTR010",
            Violation::LastConflict { .. } => "KTR004",
            Violation::LastNotFinal { .. } => "KTR004",
            Violation::Cycle { kind, .. } => match kind {
                CycleKind::Scheduling => "KTR003",
                CycleKind::BufferedYield => "KTR010",
            },
            Violation::LexicalOrder { .. } => "KTR016",
            Violation::Starvation { .. } => "KTR007",
        }
    }
}

/// One of the three phase names.
pub open spec fn known_phase(n: Seq<char>) -> bool {
    n == "initialize"@ || n == "before_poll"@ || n == "after_event"@
}

/// The name of a phase position.
pub open spec fn phase_text(p: PhaseName) -> Seq<char> {
    match p {
        PhaseName::Initialize => "initialize"@,
        PhaseName::BeforePoll => "before_poll"@,
        PhaseName::AfterEvent => "after_event"@,
    }
}

/// The first refusal among required-phase entries `k..`.
pub open spec fn phase_list_verdict(ps: Seq<String>, k: int) -> Option<Violation>
    decreases ps.len() - k,
{
    if k >= ps.len() || k < 0 {
        None
    } else if !known_phase(ps[k]@) {
        Some(Violation::UnknownRequiredPhase { index: k as usize })
    } else if exists|j: int| 0 <= j < k && ps[j]@ == ps[k]@ {
        Some(Violation::DuplicateRequiredPhase { index: k as usize })
    } else {
        phase_list_verdict(ps, k + 1)
    }
}

/// The phase is listed among the required phases.
pub open spec fn required(ps: Seq<String>, p: PhaseName) -> bool {
    exists|j: int| 0 <= j < ps.len() && ps[j]@ == phase_text(p)
}

/// The block for `p` is present.
pub open spec fn present(r: ReactorDecl, p: PhaseName) -> bool {
    match p {
        PhaseName::Initialize => r.initialize,
        PhaseName::BeforePoll => r.before_poll,
        PhaseName::AfterEvent => r.after_event,
    }
}

/// The refusal for phase `p`'s block, if any.
pub open spec fn block_verdict(r: ReactorDecl, p: PhaseName) -> Option<Violation> {
    let wanted = required(r.required_phases@, p);
    if wanted && !present(r, p) {
        Some(Violation::MissingPhaseBlock { phase: p })
    } else if present(r, p) && !wanted {
        Some(Violation::UnrequiredPhaseBlock { phase: p })
    } else {
        None
    }
}

/// The first phase refusal.
pub open spec fn phases_verdict(r: ReactorDecl) -> Option<Violation> {
    match phase_list_verdict(r.required_phases@, 0) {
        Some(v) => Some(v),
        None => match block_verdict(r, PhaseName::Initialize) {
            Some(v) => Some(v),
            None => match block_verdict(r, PhaseName::BeforePoll) {
                Some(v) => Some(v),
                None => block_verdict(r, PhaseName::AfterEvent),
            },
        },
    }
}

/// The refusal for arm `i` given the arms before it.
pub open spec fn arm_verdict(arms: Seq<SourceArm>, i: int) -> Option<Violation> {
    let a = arms[i];
    if exists|j: int| 0 <= j < i && arms[j].id@ == a.id@ {
        Some(Violation::DuplicateSourceId { arm: i as usize })
    } else if !a.persistent_place {
        Some(Violation::NonPersistentSource { arm: i as usize })
    } else if exists|j: int| 0 <= j < i && arms[j].place@ == a.place@ {
        Some(
            Violation::DuplicatePlace {
                first: (choose|j: int|
                    0 <= j < i && arms[j].place@ == a.place@ && forall|m: int|
                        0 <= m < j ==> arms[m].place@ != a.place@) as usize,
                second: i as usize,
            },
        )
    } else if a.shutdown && (a.guarded || a.yields_to is Some || a.drain is Some) {
        Some(Violation::ShutdownGuarded { arm: i as usize })
    } else if a.shutdown && a.last {
        Some(Violation::ShutdownLast { arm: i as usize })
    } else if a.shutdown && a.starvation_waived {
        Some(Violation::ShutdownWaiver { arm: i as usize })
    } else if (a.shutdown || a.terminal) && a.drain is Some {
        Some(Violation::TerminalDrained { arm: i as usize })
    } else {
        None
    }
}

/// The first refusal among arms `i..`.
pub open spec fn arms_verdict(arms: Seq<SourceArm>, i: int) -> Option<Violation>
    decreases arms.len() - i,
{
    if i >= arms.len() || i < 0 {
        None
    } else {
        match arm_verdict(arms, i) {
            Some(v) => Some(v),
            None => arms_verdict(arms, i + 1),
        }
    }
}

/// Some arm has identifier `name`.
pub open spec fn known_id(arms: Seq<SourceArm>, name: Seq<char>) -> bool {
    exists|j: int| 0 <= j < arms.len() && arms[j].id@ == name
}

/// The first unknown `before` target of arm `i` among relations `k..`.
pub open spec fn before_verdict(arms: Seq<SourceArm>, i: int, k: int) -> Option<Violation>
    decreases arms[i].before@.len() - k,
{
    if k >= arms[i].before@.len() || k < 0 {
        None
    } else if !known_id(arms, arms[i].before@[k]@) {
        Some(Violation::UnknownBeforeTarget { arm: i as usize, relation: k as usize })
    } else {
        before_verdict(arms, i, k + 1)
    }
}

/// The first relation refusal among arms `i..`.
pub open spec fn relations_verdict(arms: Seq<SourceArm>, i: int) -> Option<Violation>
    decreases arms.len() - i,
{
    if i >= arms.len() || i < 0 {
        None
    } else {
        match before_verdict(arms, i, 0) {
            Some(v) => Some(v),
            None => match arms[i].yields_to {
                Some(target) => if !known_id(arms, target@) {
                    Some(Violation::UnknownYieldTarget { arm: i as usize })
                } else if target@ == arms[i].id@ {
                    Some(Violation::SelfYield { arm: i as usize })
                } else {
                    relations_verdict(arms, i + 1)
                },
                None => relations_verdict(arms, i + 1),
            },
        }
    }
}

/// Arm `i` is the first arm declared last, if any arm is.
pub open spec fn first_last(arms: Seq<SourceArm>, i: int) -> bool {
    0 <= i < arms.len() && arms[i].last && forall|j: int| 0 <= j < i ==> !arms[j].last
}

/// The refusal of the `last` rules.
pub open spec fn last_verdict(arms: Seq<SourceArm>) -> Option<Violation> {
    if exists|i: int| first_last(arms, i) {
        let f = choose|i: int| first_last(arms, i);
        if exists|k: int| f < k < arms.len() && arms[k].last {
            let s = choose|k: int| f < k < arms.len() && arms[k].last && forall|m: int|
                f < m < k ==> !arms[m].last;
            Some(Violation::LastConflict { arm: s as usize, first: f as usize })
        } else if f + 1 != arms.len() {
            Some(Violation::LastNotFinal { arm: f as usize })
        } else {
            None
        }
    } else {
        None
    }
}

/// The first arm index carrying identifier `name`.
#[verifier::opaque]
pub open spec fn index_of(arms: Seq<SourceArm>, name: Seq<char>) -> int {
    choose|j: int|
        0 <= j < arms.len() && arms[j].id@ == name && forall|m: int|
            0 <= m < j ==> arms[m].id@ != name
}

/// The `before` relations of arm `from`, relations `k..`.
pub open spec fn before_edges_of(arms: Seq<SourceArm>, from: int, k: int) -> Seq<Edge>
    decreases arms[from].before@.len() - k,
{
    if k >= arms[from].before@.len() || k < 0 {
        Seq::empty()
    } else {
        seq![
            Edge {
                from: from as usize,
                to: index_of(arms, arms[from].before@[k]@) as usize,
                reason: EdgeReason::Before { arm: from as usize, relation: k as usize },
            },
        ] + before_edges_of(arms, from, k + 1)
    }
}

/// The `before` relations of arms `from..`, in order.
pub open spec fn before_edges(arms: Seq<SourceArm>, from: int) -> Seq<Edge>
    decreases arms.len() - from,
{
    if from >= arms.len() || from < 0 {
        Seq::empty()
    } else {
        before_edges_of(arms, from, 0) + before_edges(arms, from + 1)
    }
}

/// The shutdown-prefix relations of shutdown arm `from` to arms `to..`.
pub open spec fn shutdown_edges_of(arms: Seq<SourceArm>, from: int, to: int) -> Seq<Edge>
    decreases arms.len() - to,
{
    if to >= arms.len() || to < 0 {
        Seq::empty()
    } else if !arms[to].shutdown {
        seq![Edge { from: from as usize, to: to as usize, reason: EdgeReason::ShutdownPrefix }]
            + shutdown_edges_of(arms, from, to + 1)
    } else {
        shutdown_edges_of(arms, from, to + 1)
    }
}

/// The shutdown-prefix relations of arms `from..`.
pub open spec fn shutdown_edges(arms: Seq<SourceArm>, from: int) -> Seq<Edge>
    decreases arms.len() - from,
{
    if from >= arms.len() || from < 0 {
        Seq::empty()
    } else if arms[from].shutdown {
        shutdown_edges_of(arms, from, 0) + shutdown_edges(arms, from + 1)
    } else {
        shutdown_edges(arms, from + 1)
    }
}

/// The relations placing every other arm `from..` before the last arm.
pub open spec fn last_edges(arms: Seq<SourceArm>, last: int, from: int) -> Seq<Edge>
    decreases arms.len() - from,
{
    if from >= arms.len() || from < 0 {
        Seq::empty()
    } else if from != last {
        seq![
            Edge {
                from: from as usize,
                to: last as usize,
                reason: EdgeReason::Last { arm: last as usize },
            },
        ] + last_edges(arms, last, from + 1)
    } else {
        last_edges(arms, last, from + 1)
    }
}

/// Every scheduling relation, in the order they are checked.
pub open spec fn scheduling_edges(arms: Seq<SourceArm>) -> Seq<Edge> {
    before_edges(arms, 0) + shutdown_edges(arms, 0) + if exists|i: int| first_last(arms, i) {
        last_edges(arms, choose|i: int| first_last(arms, i), 0)
    } else {
        Seq::empty()
    }
}

/// The buffered-yield relations, in arm order.
pub open spec fn yield_edges(arms: Seq<SourceArm>, from: int) -> Seq<Edge>
    decreases arms.len() - from,
{
    if from >= arms.len() || from < 0 {
        Seq::empty()
    } else {
        match arms[from].yields_to {
            Some(t) => seq![
                Edge {
                    from: from as usize,
                    to: index_of(arms, t@) as usize,
                    reason: EdgeReason::BufferedYield,
                },
            ] + yield_edges(arms, from + 1),
            None => yield_edges(arms, from + 1),
        }
    }
}

/// The graph over `n` nodes has a ranking that every edge decreases, so it
/// has no cycle.
pub open spec fn acyclic(n: nat, edges: Seq<Edge>) -> bool {
    exists|rank: Seq<nat>| #[trigger] ranks_down(rank, n, edges)
}

/// `rank` gives each of the `n` nodes a number that every edge decreases.
pub open spec fn ranks_down(rank: Seq<nat>, n: nat, edges: Seq<Edge>) -> bool {
    &&& rank.len() == n
    &&& forall|k: int|
        0 <= k < edges.len() ==> #[trigger] rank[edges[k].to as int] < rank[edges[k].from as int]
}

/// Every edge joins two of the `n` nodes.
pub open spec fn edges_within(edges: Seq<Edge>, n: nat) -> bool {
    forall|k: int| 0 <= k < edges.len() ==> #[trigger] edges[k].from < n && edges[k].to < n
}

/// Some edge leads from `a` to `b`.
pub open spec fn has_edge(edges: Seq<Edge>, a: usize, b: usize) -> bool {
    exists|e: int| 0 <= e < edges.len() && (#[trigger] edges[e]).from == a && edges[e].to == b
}

/// `nodes` is a closed walk along the edges, first node repeated last.
pub open spec fn is_cycle(edges: Seq<Edge>, nodes: Seq<usize>) -> bool {
    &&& nodes.len() >= 2
    &&& nodes[0] == nodes.last()
    &&& forall|k: int| 0 <= k < nodes.len() - 1 ==> #[trigger] has_edge(edges, nodes[k], nodes[k + 1])
}

/// The first relation that lexical order contradicts, among `k..`.
pub open spec fn lexical_verdict(edges: Seq<Edge>, k: int) -> Option<Violation>
    decreases edges.len() - k,
{
    if k >= edges.len() || k < 0 {
        None
    } else if edges[k].from >= edges[k].to {
        Some(Violation::LexicalOrder { edge: edges[k] })
    } else {
        lexical_verdict(edges, k + 1)
    }
}

/// Arm `d` may remain ready and does not yield to arm `v`.
pub open spec fn starves(arms: Seq<SourceArm>, d: int, v: int) -> bool {
    arms[d].readiness == ReadinessKind::MayRemainReady && !(arms[d].yields_to matches Some(t)
        && t@ == arms[v].id@)
}

/// The first starvation among victims `v..`: each protected victim is
/// checked against every earlier arm in order.
pub open spec fn starvation_verdict(arms: Seq<SourceArm>, v: int) -> Option<Violation>
    decreases arms.len() - v,
{
    if v >= arms.len() || v < 0 {
        None
    } else if !arms[v].starvation_waived && exists|d: int| 0 <= d < v && starves(arms, d, v) {
        Some(
            Violation::Starvation {
                dominant: (choose|d: int| 0 <= d < v && starves(arms, d, v) && forall|e: int|
                    0 <= e < d ==> !starves(arms, e, v)) as usize,
                victim: v as usize,
            },
        )
    } else {
        starvation_verdict(arms, v + 1)
    }
}

/// The refusal of the stages that come before the relation graphs are
/// searched: arms present, phases, per-arm rules, relation targets, `last`.
pub open spec fn early_verdict(r: ReactorDecl) -> Option<Violation> {
    let arms = r.arms@;
    if arms.len() == 0 {
        Some(Violation::NoArms)
    } else {
        match phases_verdict(r) {
            Some(v) => Some(v),
            None => match arms_verdict(arms, 0) {
                Some(v) => Some(v),
                None => match relations_verdict(arms, 0) {
                    Some(v) => Some(v),
                    None => last_verdict(arms),
                },
            },
        }
    }
}

/// The refusal of the stages after both relation graphs proved acyclic:
/// lexical order, then starvation.
pub open spec fn late_verdict(arms: Seq<SourceArm>) -> Option<Violation> {
    match lexical_verdict(scheduling_edges(arms), 0) {
        Some(v) => Some(v),
        None => starvation_verdict(arms, 0),
    }
}

/// The declaration passes every rule.
pub open spec fn admissible(r: ReactorDecl) -> bool {
    let arms = r.arms@;
    &&& early_verdict(r) is None
    &&& acyclic(arms.len(), scheduling_edges(arms))
    &&& acyclic(arms.len(), yield_edges(arms, 0))
    &&& late_verdict(arms) is None
}

/// `v` is the refusal the declaration earns: the first failing stage's
/// violation, where a cycle stage reports the first cycle of its graph
/// that depth-first search closes (start nodes in index order, edges in
/// the order the relations were collected).
pub open spec fn refusal_of(r: ReactorDecl, v: ViolationSpec) -> bool {
    let arms = r.arms@;
    match early_verdict(r) {
        Some(e) => v == ViolationSpec::Plain(e),
        None => if !acyclic(arms.len(), scheduling_edges(arms)) {
            v matches ViolationSpec::Cycle { kind, nodes } && kind == CycleKind::Scheduling
                && is_cycle(scheduling_edges(arms), nodes) && first_cycle(
                scheduling_edges(arms),
                arms.len(),
            ) == Some(nodes)
        } else if !acyclic(arms.len(), yield_edges(arms, 0)) {
            v matches ViolationSpec::Cycle { kind, nodes } && kind == CycleKind::BufferedYield
                && is_cycle(yield_edges(arms, 0), nodes) && first_cycle(
                yield_edges(arms, 0),
                arms.len(),
            ) == Some(nodes)
        } else {
            late_verdict(arms) matches Some(l) && v == ViolationSpec::Plain(l)
        },
    }
}

proof fn lemma_starvation_none(arms: Seq<SourceArm>, v0: int)
    requires
        0 <= v0,
        starvation_verdict(arms, v0) is None,
    ensures
        forall|d: int, v: int|
            0 <= d < v && v0 <= v < arms.len() && !arms[v].starvation_waived ==> !#[trigger] starves(
                arms,
                d,
                v,
            ),
    decreases arms.len() - v0,
{
    if v0 < arms.len() {
        lemma_starvation_none(arms, v0 + 1);
    }
}

/// In an admissible declaration no source that may remain ready precedes a
/// protected source unless it yields directly to it: a source that is not
/// waived is never starved by an earlier one.
pub proof fn lemma_admissible_no_starvation(r: ReactorDecl)
    requires
        admissible(r),
    ensures
        forall|d: int, v: int|
            0 <= d < v < r.arms@.len() && !r.arms@[v].starvation_waived ==> !#[trigger] starves(
                r.arms@,
                d,
                v,
            ),
{
    lemma_starvation_none(r.arms@, 0);
}

proof fn lemma_lexical_none(edges: Seq<Edge>, k: int)
    requires
        0 <= k,
        lexical_verdict(edges, k) is None,
    ensures
        forall|m: int| k <= m < edges.len() ==> (#[trigger] edges[m]).from < edges[m].to,
    decreases edges.len() - k,
{
    if k < edges.len() {
        lemma_lexical_none(edges, k + 1);
    }
}

proof fn lemma_shutdown_edge_of(arms: Seq<SourceArm>, from: int, to: int, i: int)
    requires
        0 <= to <= i < arms.len(),
        !arms[i].shutdown,
    ensures
        exists|m: int|
            0 <= m < shutdown_edges_of(arms, from, to).len() && (#[trigger] shutdown_edges_of(
                arms,
                from,
                to,
            )[m]).from == from as usize && shutdown_edges_of(arms, from, to)[m].to == i as usize,
    decreases arms.len() - to,
{
    let e = shutdown_edges_of(arms, from, to);
    if to == i {
        assert(e[0].from == from as usize && e[0].to == i as usize);
    } else {
        lemma_shutdown_edge_of(arms, from, to + 1, i);
        let rest = shutdown_edges_of(arms, from, to + 1);
        let m = choose|m: int|
            0 <= m < rest.len() && (#[trigger] rest[m]).from == from as usize && rest[m].to
                == i as usize;
        if !arms[to].shutdown {
            assert(e[m + 1] == rest[m]);
        } else {
            assert(e[m] == rest[m]);
        }
    }
}

proof fn lemma_shutdown_edge(arms: Seq<SourceArm>, from: int, j: int, i: int)
    requires
        0 <= from <= j < arms.len(),
        arms[j].shutdown,
        0 <= i < arms.len(),
        !arms[i].shutdown,
    ensures
        exists|m: int|
            0 <= m < shutdown_edges(arms, from).len() && (#[trigger] shutdown_edges(arms, from)[m]).from
                == j as usize && shutdown_edges(arms, from)[m].to == i as usize,
    decreases arms.len() - from,
{
    let e = shutdown_edges(arms, from);
    if from == j {
        lemma_shutdown_edge_of(arms, j, 0, i);
        let own = shutdown_edges_of(arms, j, 0);
        let m = choose|m: int|
            0 <= m < own.len() && (#[trigger] own[m]).from == j as usize && own[m].to == i as usize;
        assert(e[m] == own[m]);
    } else {
        lemma_shutdown_edge(arms, from + 1, j, i);
        let rest = shutdown_edges(arms, from + 1);
        let m = choose|m: int|
            0 <= m < rest.len() && (#[trigger] rest[m]).from == j as usize && rest[m].to == i as usize;
        if arms[from].shutdown {
            let own = shutdown_edges_of(arms, from, 0);
            assert(e[own.len() + m] == rest[m]);
        } else {
            assert(e[m] == rest[m]);
        }
    }
}

/// In an admissible declaration the shutdown sources form a leading
/// prefix: no shutdown source comes after a source that is not one.
pub proof fn lemma_admissible_shutdown_prefix(r: ReactorDecl)
    requires
        admissible(r),
        r.arms@.len() <= usize::MAX,
    ensures
        forall|i: int, j: int|
            0 <= i < j < r.arms@.len() && #[trigger] r.arms@[j].shutdown ==> #[trigger] r.arms@[i].shutdown,
{
    let arms = r.arms@;
    let all = scheduling_edges(arms);
    lemma_lexical_none(all, 0);
    assert forall|i: int, j: int|
        0 <= i < j < arms.len() && #[trigger] arms[j].shutdown implies #[trigger] arms[i].shutdown by {
        if !arms[i].shutdown {
            lemma_shutdown_edge(arms, 0, j, i);
            let b = before_edges(arms, 0);
            let sd = shutdown_edges(arms, 0);
            let m = choose|m: int|
                0 <= m < sd.len() && (#[trigger] sd[m]).from == j as usize && sd[m].to == i as usize;
            assert(all[b.len() + m] == sd[m]);
        }
    }
}

proof fn lemma_first_last_exists(arms: Seq<SourceArm>, i: int)
    requires
        0 <= i < arms.len(),
        arms[i].last,
    ensures
        exists|f: int| first_last(arms, f),
    decreases i,
{
    if exists|j: int| 0 <= j < i && arms[j].last {
        let j = choose|j: int| 0 <= j < i && arms[j].last;
        lemma_first_last_exists(arms, j);
    } else {
        assert(first_last(arms, i));
    }
}

/// In an admissible declaration at most one source is declared last, and
/// it is the final source.
pub proof fn lemma_admissible_last_final(r: ReactorDecl)
    requires
        admissible(r),
    ensures
        forall|i: int| 0 <= i < r.arms@.len() && #[trigger] r.arms@[i].last ==> i == r.arms@.len() - 1,
{
    let arms = r.arms@;
    assert forall|i: int| 0 <= i < arms.len() && #[trigger] arms[i].last implies i == arms.len() - 1 by {
        lemma_first_last_exists(arms, i);
        let f = choose|f: int| first_last(arms, f);
        assert(last_verdict(arms) is None);
        if f < i {
            assert(exists|k: int| f < k < arms.len() && arms[k].last);
        }
    }
}

proof fn lemma_before_edge_of(arms: Seq<SourceArm>, from: int, k0: int, k: int)
    requires
        0 <= from < arms.len(),
        0 <= k0 <= k < arms[from].before@.len(),
    ensures
        before_edges_of(arms, from, k0).len() > k - k0,
        before_edges_of(arms, from, k0)[k - k0].from == from as usize,
        before_edges_of(arms, from, k0)[k - k0].to == index_of(arms, arms[from].before@[k]@) as usize,
    decreases k - k0,
{
    if k0 < k {
        lemma_before_edge_of(arms, from, k0 + 1, k);
        let rest = before_edges_of(arms, from, k0 + 1);
        assert(before_edges_of(arms, from, k0)[k - k0] == rest[k - k0 - 1]);
    }
}

proof fn lemma_before_edge(arms: Seq<SourceArm>, from: int, i: int, k: int)
    requires
        0 <= from <= i < arms.len(),
        0 <= k < arms[i].before@.len(),
    ensures
        exists|m: int|
            0 <= m < before_edges(arms, from).len() && (#[trigger] before_edges(arms, from)[m]).from
                == i as usize && before_edges(arms, from)[m].to == index_of(arms, arms[i].before@[k]@) as usize,
    decreases arms.len() - from,
{
    let e = before_edges(arms, from);
    let own = before_edges_of(arms, from, 0);
    if from == i {
        lemma_before_edge_of(arms, i, 0, k);
        assert(e[k] == own[k]);
    } else {
        lemma_before_edge(arms, from + 1, i, k);
        let rest = before_edges(arms, from + 1);
        let m = choose|m: int|
            0 <= m < rest.len() && (#[trigger] rest[m]).from == i as usize && rest[m].to == index_of(
                arms,
                arms[i].before@[k]@,
            ) as usize;
        assert(e[own.len() + m] == rest[m]);
    }
}

proof fn lemma_first_id(arms: Seq<SourceArm>, name: Seq<char>, j: int)
    requires
        0 <= j < arms.len(),
        arms[j].id@ == name,
    ensures
        exists|t: int|
            0 <= t < arms.len() && arms[t].id@ == name && forall|m: int|
                0 <= m < t ==> arms[m].id@ != name,
    decreases j,
{
    if exists|m: int| 0 <= m < j && arms[m].id@ == name {
        let m = choose|m: int| 0 <= m < j && arms[m].id@ == name;
        lemma_first_id(arms, name, m);
    }
}

proof fn lemma_before_later_at(arms: Seq<SourceArm>, i: int, k: int)
    requires
        relations_verdict(arms, 0) is None,
        forall|m: int|
            0 <= m < scheduling_edges(arms).len() ==> (#[trigger] scheduling_edges(arms)[m]).from
                < scheduling_edges(arms)[m].to,
        arms.len() <= usize::MAX,
        0 <= i < arms.len(),
        0 <= k < arms[i].before@.len(),
    ensures
        i < index_of(arms, arms[i].before@[k]@) < arms.len(),
        arms[index_of(arms, arms[i].before@[k]@)].id@ == arms[i].before@[k]@,
{
    let name = arms[i].before@[k]@;
    lemma_relations_known(arms, 0);
    assert(known_id(arms, name));
    let w = choose|w: int| 0 <= w < arms.len() && arms[w].id@ == name;
    lemma_first_id(arms, name, w);
    reveal(index_of);
    let t = index_of(arms, name);
    assert(0 <= t < arms.len() && arms[t].id@ == name);
    lemma_before_edge(arms, 0, i, k);
    let b = before_edges(arms, 0);
    let all = scheduling_edges(arms);
    let m = choose|m: int|
        0 <= m < b.len() && (#[trigger] b[m]).from == i as usize && b[m].to == t as usize;
    assert(all[m] == b[m]);
    assert(i < t);
}

/// Every `before` relation names a source that comes later: the first
/// source carrying the named identifier.
pub open spec fn befores_point_later(arms: Seq<SourceArm>) -> bool {
    forall|i: int, k: int|
        0 <= i < arms.len() && 0 <= k < arms[i].before@.len() ==> {
            let t = index_of(arms, (#[trigger] arms[i].before@[k])@);
            i < t < arms.len() && arms[t].id@ == arms[i].before@[k]@
        }
}

/// In an admissible declaration every `before` relation names a source
/// that comes later in the declaration.
pub proof fn lemma_admissible_before_later(r: ReactorDecl)
    requires
        admissible(r),
        r.arms@.len() <= usize::MAX,
    ensures
        befores_point_later(r.arms@),
{
    lemma_lexical_none(scheduling_edges(r.arms@), 0);
    assert(relations_verdict(r.arms@, 0) is None);
    assert forall|i: int, k: int|
        0 <= i < r.arms@.len() && 0 <= k < r.arms@[i].before@.len() implies {
            let t = index_of(r.arms@, (#[trigger] r.arms@[i].before@[k])@);
            i < t < r.arms@.len() && r.arms@[t].id@ == r.arms@[i].before@[k]@
        } by {
        lemma_before_later_at(r.arms@, i, k);
    }
    assert(befores_point_later(r.arms@));
}

/// Decides whether a reactor declaration is admissible, and if not, which
/// rule it breaks first.
pub fn validate(decl: &ReactorDecl) -> (r: Result<(), Violation>)
    ensures
        r is Ok <==> admissible(*decl),
        r matches Err(v) ==> refusal_of(*decl, v@),
{
    let arms = &decl.arms;
    let n = arms.len();
    if n == 0 {
        return Err(Violation::NoArms);
    }
    match phase_refusal(decl) {
        Some(v) => {
            return Err(v);
        },
        None => {},
    }
    match arm_refusal(arms) {
        Some(v) => {
            return Err(v);
        },
        None => {},
    }
    match relation_refusal(arms) {
        Some(v) => {
            return Err(v);
        },
        None => {},
    }
    match last_refusal(arms) {
        Some(v) => {
            return Err(v);
        },
        None => {},
    }
    proof {
        lemma_relations_known(arms@, 0);
    }
    let mut sched: Vec<Edge> = Vec::new();
    push_before_edges(arms, &mut sched);
    push_shutdown_edges(arms, &mut sched);
    match first_last_arm(arms) {
        Some(f) => push_last_edges(arms, f, &mut sched),
        None => {},
    }
    assert(sched@ =~= scheduling_edges(arms@));
    match find_cycle(n, &sched) {
        Some(c) => {
            proof {
                lemma_cycle_not_acyclic(n as nat, sched@, c@);
            }
            return Err(Violation::Cycle { kind: CycleKind::Scheduling, nodes: c });
        },
        None => {},
    }
    let mut yields: Vec<Edge> = Vec::new();
    push_yield_edges(arms, &mut yields);
    assert(yields@ =~= yield_edges(arms@, 0));
    match find_cycle(n, &yields) {
        Some(c) => {
            proof {
                lemma_cycle_not_acyclic(n as nat, yields@, c@);
            }
            return Err(Violation::Cycle { kind: CycleKind::BufferedYield, nodes: c });
        },
        None => {},
    }
    match lexical_refusal(&sched) {
        Some(v) => {
            return Err(v);
        },
        None => {},
    }
    match starvation_refusal(arms) {
        Some(v) => {
            return Err(v);
        },
        None => {},
    }
    Ok(())
}

} // verus!
