//! The typed post-compaction window layout.
//!
//! The layout is a fixed, ordered recipe (`system`, `user_info`,
//! `rules_reminder`, `last_user_query`, `verbatim_tail`, `summary`,
//! `reminders`) and its constructor enforces tail atomicity: a tool call and
//! its terminal are never split across the compaction boundary. Segments
//! carry semantic region labels for optional serving-layer co-design; no
//! behavior depends on them.

use vstd::prelude::*;

use crate::caps::{Capped, ToolResult};
use crate::protocol::ids::EffectId;

verus! {

/// Semantic region labels.
#[derive(Clone, Copy, Debug, PartialEq, Eq, Structural)]
#[non_exhaustive]
pub enum Region {
    /// Static system prompt prefix (cache-stable).
    System,
    /// Environment/user information block.
    UserInfo,
    /// Re-injected rules content.
    RulesReminder,
    /// The last real user query, verbatim.
    LastUserQuery,
    /// Verbatim tail since the last real user turn.
    VerbatimTail,
    /// The model-generated compaction summary.
    Summary,
    /// Mutable-state reminder blocks.
    Reminders,
}

/// One item of the verbatim tail, kept at message granularity so the
/// constructor can check call/terminal pairing.
#[allow(inconsistent_fields)]
#[derive(Debug, PartialEq, Eq)]
#[non_exhaustive]
pub enum TailItem {
    /// An ordinary message span (user, assistant, or reminder text).
    Message(String),
    /// A tool call the model issued.
    ToolCall {
        /// The call's effect identity.
        call: EffectId,
        /// Rendered call content.
        text: String,
    },
    /// A tool result branded with the cap applied by core.
    ToolResult {
        /// The call this result answers.
        call: EffectId,
        /// Rendered result content, capped at construction.
        text: Capped<ToolResult>,
    },
}

impl Clone for TailItem {
    fn clone(&self) -> (res: Self)
        ensures
            res == *self,
    {
        match self {
            TailItem::Message(m) => TailItem::Message(m.clone()),
            TailItem::ToolCall { call, text } => TailItem::ToolCall { call: *call, text: text.clone() },
            TailItem::ToolResult { call, text } => TailItem::ToolResult {
                call: *call,
                text: text.clone(),
            },
        }
    }
}

/// A copy of a tail.
pub fn clone_tail(tail: &Vec<TailItem>) -> (r: Vec<TailItem>)
    ensures
        r@ == tail@,
{
    let mut out: Vec<TailItem> = Vec::new();
    let mut i: usize = 0;
    while i < tail.len()
        invariant
            i <= tail@.len(),
            out@ == tail@.take(i as int),
        decreases tail@.len() - i,
    {
        out.push(tail[i].clone());
        assert(out@ =~= tail@.take(i + 1));
        i = i + 1;
    }
    assert(out@ =~= tail@);
    out
}

/// Why a layout was refused.
#[derive(Clone, Copy, Debug, PartialEq, Eq, Structural)]
#[non_exhaustive]
pub enum LayoutError {
    /// A tail tool result appears without its call earlier in the tail: the
    /// compaction boundary split an atomic pair.
    TailSplitsToolPair,
    /// A tool call has no later terminal in the tail.
    UnmatchedToolCall,
    /// The same tool-call identity is declared more than once.
    DuplicateToolCallId,
    /// A tool call has more than one terminal result.
    DuplicateToolTerminal,
}

/// The typed window recipe.
#[derive(Clone, Debug, PartialEq, Eq)]
pub struct WindowLayout {
    /// Static system prompt ([`Region::System`]).
    pub system: String,
    /// Environment block ([`Region::UserInfo`]).
    pub user_info: String,
    /// Escaped rules content ([`Region::RulesReminder`]).
    pub rules_reminder: String,
    /// The last real user query ([`Region::LastUserQuery`]).
    pub last_user_query: String,
    /// Verbatim tail since the last real user turn ([`Region::VerbatimTail`]).
    pub verbatim_tail: Vec<TailItem>,
    /// Compaction summary, empty before first compaction ([`Region::Summary`]).
    pub summary: String,
    /// Reminder blocks ([`Region::Reminders`]).
    pub reminders: Vec<String>,
}

/// Position of the call `id` among the seen calls, or `-1`.
pub open spec fn call_index(calls: Seq<(EffectId, bool)>, id: EffectId) -> int
    decreases calls.len(),
{
    if calls.len() == 0 {
        -1
    } else if calls.last().0 == id {
        calls.len() - 1
    } else {
        call_index(calls.drop_last(), id)
    }
}

/// The seen calls, each with whether its terminal has appeared, after one
/// more tail item.
pub open spec fn pairing_step(calls: Seq<(EffectId, bool)>, item: TailItem) -> Result<
    Seq<(EffectId, bool)>,
    LayoutError,
> {
    match item {
        TailItem::ToolCall { call, .. } => if call_index(calls, call) >= 0 {
            Err(LayoutError::DuplicateToolCallId)
        } else {
            Ok(calls.push((call, false)))
        },
        TailItem::ToolResult { call, .. } => {
            let i = call_index(calls, call);
            if i < 0 {
                Err(LayoutError::TailSplitsToolPair)
            } else if calls[i].1 {
                Err(LayoutError::DuplicateToolTerminal)
            } else {
                Ok(calls.update(i, (call, true)))
            }
        },
        TailItem::Message(_) => Ok(calls),
    }
}

/// The seen calls after the whole tail, or the first pairing refusal.
pub open spec fn pairing(items: Seq<TailItem>) -> Result<Seq<(EffectId, bool)>, LayoutError>
    decreases items.len(),
{
    if items.len() == 0 {
        Ok(Seq::empty())
    } else {
        match pairing(items.drop_last()) {
            Err(e) => Err(e),
            Ok(calls) => pairing_step(calls, items.last()),
        }
    }
}

/// The verdict on a tail: the first pairing refusal, else a refusal when a
/// call never saw its terminal.
pub open spec fn tail_verdict(items: Seq<TailItem>) -> Result<(), LayoutError> {
    match pairing(items) {
        Err(e) => Err(e),
        Ok(calls) => if exists|i: int| 0 <= i < calls.len() && !(#[trigger] calls[i]).1 {
            Err(LayoutError::UnmatchedToolCall)
        } else {
            Ok(())
        },
    }
}

fn find_call(calls: &Vec<(EffectId, bool)>, id: EffectId) -> (r: Option<usize>)
    ensures
        match r {
            Some(i) => i < calls@.len() && i as int == call_index(calls@, id),
            None => call_index(calls@, id) == -1,
        },
{
    let mut i = calls.len();
    assert(calls@.take(i as int) =~= calls@);
    while i > 0
        invariant
            i <= calls@.len(),
            call_index(calls@, id) == call_index(calls@.take(i as int), id),
        decreases i,
    {
        assert(calls@.take(i as int).drop_last() =~= calls@.take(i - 1));
        if calls[i - 1].0 == id {
            return Some(i - 1);
        }
        i = i - 1;
    }
    None
}

proof fn lemma_call_index_bounds(calls: Seq<(EffectId, bool)>, id: EffectId)
    ensures
        -1 <= call_index(calls, id) < calls.len(),
        call_index(calls, id) >= 0 ==> calls[call_index(calls, id)].0 == id,
    decreases calls.len(),
{
    if calls.len() > 0 {
        lemma_call_index_bounds(calls.drop_last(), id);
    }
}

/// Item `x` is the tool call `id`.
pub open spec fn is_call_of(x: TailItem, id: EffectId) -> bool {
    match x {
        TailItem::ToolCall { call, .. } => call == id,
        _ => false,
    }
}

/// Item `x` is a result for the tool call `id`.
pub open spec fn is_result_of(x: TailItem, id: EffectId) -> bool {
    match x {
        TailItem::ToolResult { call, .. } => call == id,
        _ => false,
    }
}

/// The tail holds the tool call `id`.
pub open spec fn called(t: Seq<TailItem>, id: EffectId) -> bool {
    exists|i: int| 0 <= i < t.len() && #[trigger] is_call_of(t[i], id)
}

/// The tail holds a result for the tool call `id`.
pub open spec fn answered(t: Seq<TailItem>, id: EffectId) -> bool {
    exists|j: int| 0 <= j < t.len() && #[trigger] is_result_of(t[j], id)
}

/// No tool call identity occurs twice, every result comes after the call
/// it answers, and no call is answered twice.
pub open spec fn pairs_so_far(t: Seq<TailItem>) -> bool {
    &&& forall|i: int, j: int, id: EffectId|
        0 <= i < j < t.len() && #[trigger] is_call_of(t[i], id) ==> !#[trigger] is_call_of(t[j], id)
    &&& forall|j: int, id: EffectId|
        0 <= j < t.len() && #[trigger] is_result_of(t[j], id) ==> called(t.take(j), id)
    &&& forall|i: int, j: int, id: EffectId|
        0 <= i < j < t.len() && #[trigger] is_result_of(t[i], id) ==> !#[trigger] is_result_of(
            t[j],
            id,
        )
}

/// Every tool call identity is unique, every result comes after the call
/// it answers, and every call has exactly one result.
pub open spec fn well_paired(t: Seq<TailItem>) -> bool {
    &&& pairs_so_far(t)
    &&& forall|id: EffectId| called(t, id) ==> answered(t, id)
}

/// The seen calls record, in order, exactly the calls of the tail, each
/// once, flagged when the tail answers it.
spec fn tracks(calls: Seq<(EffectId, bool)>, t: Seq<TailItem>) -> bool {
    &&& forall|k: int| 0 <= k < calls.len() ==> call_index(calls, (#[trigger] calls[k]).0) == k
    &&& forall|id: EffectId| call_index(calls, id) >= 0 <==> called(t, id)
    &&& forall|id: EffectId|
        call_index(calls, id) >= 0 ==> (calls[call_index(calls, id)].1 <==> answered(t, id))
}

proof fn lemma_call_index_push(calls: Seq<(EffectId, bool)>, e: (EffectId, bool), id: EffectId)
    ensures
        call_index(calls.push(e), id) == if e.0 == id {
            calls.len() as int
        } else {
            call_index(calls, id)
        },
{
    assert(calls.push(e).drop_last() =~= calls);
}

proof fn lemma_call_index_update(
    calls: Seq<(EffectId, bool)>,
    i: int,
    v: (EffectId, bool),
    id: EffectId,
)
    requires
        0 <= i < calls.len(),
        v.0 == calls[i].0,
    ensures
        call_index(calls.update(i, v), id) == call_index(calls, id),
    decreases calls.len(),
{
    if i < calls.len() - 1 {
        assert(calls.update(i, v).drop_last() =~= calls.drop_last().update(i, v));
        lemma_call_index_update(calls.drop_last(), i, v, id);
    } else {
        assert(calls.update(i, v).drop_last() =~= calls.drop_last());
    }
}

proof fn lemma_extend_facts(t: Seq<TailItem>)
    requires
        t.len() > 0,
    ensures
        forall|id: EffectId|
            #[trigger] called(t, id) <==> called(t.drop_last(), id) || is_call_of(t.last(), id),
        forall|id: EffectId|
            #[trigger] answered(t, id) <==> answered(t.drop_last(), id) || is_result_of(t.last(), id),
{
    let p = t.drop_last();
    assert forall|id: EffectId| #[trigger] called(t, id) <==> called(p, id) || is_call_of(t.last(), id) by {
        if called(t, id) {
            let i = choose|i: int| 0 <= i < t.len() && #[trigger] is_call_of(t[i], id);
            if i < p.len() {
                assert(is_call_of(p[i], id));
            }
        }
        if called(p, id) {
            let i = choose|i: int| 0 <= i < p.len() && #[trigger] is_call_of(p[i], id);
            assert(is_call_of(t[i], id));
        }
        if is_call_of(t.last(), id) {
            assert(is_call_of(t[t.len() - 1], id));
        }
    }
    assert forall|id: EffectId| #[trigger] answered(t, id) <==> answered(p, id) || is_result_of(
        t.last(),
        id,
    ) by {
        if answered(t, id) {
            let j = choose|j: int| 0 <= j < t.len() && #[trigger] is_result_of(t[j], id);
            if j < p.len() {
                assert(is_result_of(p[j], id));
            }
        }
        if answered(p, id) {
            let j = choose|j: int| 0 <= j < p.len() && #[trigger] is_result_of(p[j], id);
            assert(is_result_of(t[j], id));
        }
        if is_result_of(t.last(), id) {
            assert(is_result_of(t[t.len() - 1], id));
        }
    }
}

proof fn lemma_pairs_restrict(t: Seq<TailItem>)
    requires
        t.len() > 0,
        pairs_so_far(t),
    ensures
        pairs_so_far(t.drop_last()),
{
    let p = t.drop_last();
    assert forall|i: int, j: int, id: EffectId|
        0 <= i < j < p.len() && #[trigger] is_call_of(p[i], id) implies !#[trigger] is_call_of(p[j], id) by {
        assert(p[i] == t[i] && p[j] == t[j]);
    }
    assert forall|j: int, id: EffectId|
        0 <= j < p.len() && #[trigger] is_result_of(p[j], id) implies called(p.take(j), id) by {
        assert(p[j] == t[j]);
        assert(p.take(j) =~= t.take(j));
    }
    assert forall|i: int, j: int, id: EffectId|
        0 <= i < j < p.len() && #[trigger] is_result_of(p[i], id) implies !#[trigger] is_result_of(
        p[j],
        id,
    ) by {
        assert(p[i] == t[i] && p[j] == t[j]);
    }
}

proof fn lemma_pairing_tracks(t: Seq<TailItem>)
    ensures
        pairing(t) is Ok <==> pairs_so_far(t),
        pairing(t) matches Ok(c) ==> tracks(c, t),
    decreases t.len(),
{
    if t.len() == 0 {
        return;
    }
    let p = t.drop_last();
    let x = t.last();
    let n = p.len() as int;
    lemma_pairing_tracks(p);
    lemma_extend_facts(t);
    assert(p.take(n) =~= p);
    assert(t.take(n) =~= p);
    assert forall|i: int| 0 <= i < n implies t[i] == p[i] by {}
    if pairs_so_far(t) {
        lemma_pairs_restrict(t);
    }
    match pairing(p) {
        Err(e) => {},
        Ok(c) => {
            lemma_call_index_bounds(c, x->ToolCall_call);
            match x {
                TailItem::ToolCall { call: id, .. } => {
                    assert(is_call_of(t[n], id));
                    if call_index(c, id) >= 0 {
                        assert(called(p, id));
                        let i = choose|i: int| 0 <= i < p.len() && #[trigger] is_call_of(p[i], id);
                        assert(is_call_of(t[i], id));
                        assert(!pairs_so_far(t));
                    } else {
                        let c2 = c.push((id, false));
                        assert(!called(p, id));
                        assert(!answered(p, id)) by {
                            if answered(p, id) {
                                let j = choose|j: int| 0 <= j < p.len() && #[trigger] is_result_of(p[j], id);
                                assert(called(p.take(j), id));
                                let i = choose|i: int| 0 <= i < j && #[trigger] is_call_of(p.take(j)[i], id);
                                assert(is_call_of(p[i], id));
                            }
                        }
                        assert forall|id2: EffectId| #[trigger] call_index(c2, id2) == if id == id2 {
                            c.len() as int
                        } else {
                            call_index(c, id2)
                        } by {
                            lemma_call_index_push(c, (id, false), id2);
                        }
                        assert forall|k: int| 0 <= k < c2.len() implies call_index(
                            c2,
                            (#[trigger] c2[k]).0,
                        ) == k by {
                            if k < c.len() {
                                assert(c2[k] == c[k]);
                                lemma_call_index_bounds(c, c[k].0);
                                assert(called(p, c[k].0));
                            }
                        }
                        assert forall|i: int, j: int, id3: EffectId|
                            0 <= i < j < t.len() && #[trigger] is_call_of(t[i], id3) implies !#[trigger] is_call_of(
                            t[j],
                            id3,
                        ) by {
                            if j == n && is_call_of(t[j], id3) {
                                assert(is_call_of(p[i], id3));
                            }
                        }
                        assert forall|j: int, id3: EffectId|
                            0 <= j < t.len() && #[trigger] is_result_of(t[j], id3) implies called(
                            t.take(j),
                            id3,
                        ) by {
                            assert(t.take(j) =~= p.take(j));
                        }
                        assert(pairs_so_far(t));
                        assert forall|id2: EffectId| call_index(c2, id2) >= 0 implies (c2[call_index(
                            c2,
                            id2,
                        )].1 <==> answered(t, id2)) by {
                            lemma_call_index_bounds(c, id2);
                        }
                        assert forall|id2: EffectId| call_index(c2, id2) >= 0 <==> called(t, id2) by {
                            lemma_call_index_bounds(c, id2);
                        }
                        assert(tracks(c2, t));
                    }
                },
                TailItem::ToolResult { call: id, .. } => {
                    assert(is_result_of(t[n], id));
                    lemma_call_index_bounds(c, id);
                    let ci = call_index(c, id);
                    if ci < 0 {
                        assert(!called(p, id));
                        assert(!pairs_so_far(t));
                    } else if c[ci].1 {
                        assert(answered(p, id));
                        let j = choose|j: int| 0 <= j < p.len() && #[trigger] is_result_of(p[j], id);
                        assert(is_result_of(t[j], id));
                        assert(!pairs_so_far(t));
                    } else {
                        let c2 = c.update(ci, (id, true));
                        assert forall|id2: EffectId| #[trigger] call_index(c2, id2) == call_index(c, id2) by {
                            lemma_call_index_update(c, ci, (id, true), id2);
                        }
                        assert forall|k: int| 0 <= k < c2.len() implies call_index(
                            c2,
                            (#[trigger] c2[k]).0,
                        ) == k by {
                            assert(c2[k].0 == c[k].0);
                        }
                        assert forall|id2: EffectId| call_index(c2, id2) >= 0 implies (c2[call_index(
                            c2,
                            id2,
                        )].1 <==> answered(t, id2)) by {
                            lemma_call_index_bounds(c, id2);
                            if id2 != id {
                                assert(call_index(c, id2) != ci);
                            }
                        }
                        assert forall|i: int, j: int, id3: EffectId|
                            0 <= i < j < t.len() && #[trigger] is_result_of(t[i], id3) implies !#[trigger] is_result_of(
                            t[j],
                            id3,
                        ) by {
                            if j == n && is_result_of(t[j], id3) {
                                assert(is_result_of(p[i], id3));
                                assert(answered(p, id3));
                            }
                        }
                        assert forall|j: int, id3: EffectId|
                            0 <= j < t.len() && #[trigger] is_result_of(t[j], id3) implies called(
                            t.take(j),
                            id3,
                        ) by {
                            if j == n {
                                assert(t.take(j) =~= p);
                            } else {
                                assert(t.take(j) =~= p.take(j));
                            }
                        }
                        assert(pairs_so_far(t));
                        assert(tracks(c2, t));
                    }
                },
                TailItem::Message(_) => {
                    assert forall|j: int, id3: EffectId|
                        0 <= j < t.len() && #[trigger] is_result_of(t[j], id3) implies called(
                        t.take(j),
                        id3,
                    ) by {
                        assert(t.take(j) =~= p.take(j));
                    }
                    assert(pairs_so_far(t));
                },
            }
        },
    }
}

proof fn lemma_pairing_err_kind(t: Seq<TailItem>)
    ensures
        pairing(t) matches Err(e) ==> e != LayoutError::UnmatchedToolCall,
    decreases t.len(),
{
    if t.len() > 0 {
        lemma_pairing_err_kind(t.drop_last());
    }
}

/// The window constructor accepts a tail exactly when it is well paired:
/// call identities are unique, every result follows the call it answers,
/// and every call has exactly one result. An unanswered call is reported
/// only when the tail is otherwise well formed.
pub proof fn lemma_tail_verdict_paired(t: Seq<TailItem>)
    ensures
        tail_verdict(t) is Ok <==> well_paired(t),
        tail_verdict(t) == Err::<(), LayoutError>(LayoutError::UnmatchedToolCall) ==> pairs_so_far(t)
            && !well_paired(t),
{
    lemma_pairing_tracks(t);
    lemma_pairing_err_kind(t);
    if let Ok(c) = pairing(t) {
        if exists|i: int| 0 <= i < c.len() && !(#[trigger] c[i]).1 {
            let i = choose|i: int| 0 <= i < c.len() && !(#[trigger] c[i]).1;
            let id = c[i].0;
            assert(call_index(c, id) == i);
            assert(called(t, id) && !answered(t, id));
        } else {
            assert forall|id: EffectId| called(t, id) implies answered(t, id) by {
                lemma_call_index_bounds(c, id);
                assert(!!c[call_index(c, id)].1);
            }
        }
    }
}

proof fn lemma_pairing_refusal_stands(s: Seq<TailItem>, j: int)
    requires
        0 <= j <= s.len(),
        pairing(s.take(j)) is Err,
    ensures
        pairing(s) == pairing(s.take(j)),
    decreases s.len() - j,
{
    if j < s.len() {
        assert(s.take(j + 1).drop_last() =~= s.take(j));
        lemma_pairing_refusal_stands(s, j + 1);
    } else {
        assert(s.take(j) =~= s);
    }
}

impl WindowLayout {
    /// Builds a layout, enforcing a one-call/one-terminal tail lifecycle.
    ///
    /// Returns the corresponding [`LayoutError`] when a result is orphaned,
    /// a call identity is duplicated, a call has duplicate terminals, or a
    /// call has no later terminal.
    pub fn new(
        system: String,
        user_info: String,
        rules_reminder: String,
        last_user_query: String,
        verbatim_tail: Vec<TailItem>,
        summary: String,
        reminders: Vec<String>,
    ) -> (r: Result<Self, LayoutError>)
        ensures
            match tail_verdict(verbatim_tail@) {
                Ok(()) => r matches Ok(layout) && layout == (WindowLayout {
                    system,
                    user_info,
                    rules_reminder,
                    last_user_query,
                    verbatim_tail,
                    summary,
                    reminders,
                }),
                Err(e) => r == Err::<Self, LayoutError>(e),
            },
    {
        let mut calls: Vec<(EffectId, bool)> = Vec::new();
        let mut k: usize = 0;
        assert(verbatim_tail@.take(0) =~= Seq::<TailItem>::empty());
        while k < verbatim_tail.len()
            invariant
                k <= verbatim_tail@.len(),
                pairing(verbatim_tail@.take(k as int)) == Ok::<
                    Seq<(EffectId, bool)>,
                    LayoutError,
                >(calls@),
            decreases verbatim_tail@.len() - k,
        {
            assert(verbatim_tail@.take(k + 1).drop_last() =~= verbatim_tail@.take(k as int));
            assert(verbatim_tail@.take(k + 1).last() == verbatim_tail@[k as int]);
            match &verbatim_tail[k] {
                TailItem::ToolCall { call, .. } => {
                    if find_call(&calls, *call).is_some() {
                        proof {
                            lemma_pairing_refusal_stands(verbatim_tail@, k + 1);
                        }
                        return Err(LayoutError::DuplicateToolCallId);
                    }
                    calls.push((*call, false));
                },
                TailItem::ToolResult { call, .. } => {
                    proof {
                        lemma_call_index_bounds(calls@, *call);
                    }
                    let i = match find_call(&calls, *call) {
                        None => {
                            proof {
                                lemma_pairing_refusal_stands(verbatim_tail@, k + 1);
                            }
                            return Err(LayoutError::TailSplitsToolPair);
                        },
                        Some(i) => i,
                    };
                    if calls[i].1 {
                        proof {
                            lemma_pairing_refusal_stands(verbatim_tail@, k + 1);
                        }
                        return Err(LayoutError::DuplicateToolTerminal);
                    }
                    calls.set(i, (*call, true));
                },
                TailItem::Message(_) => {},
            }
            k = k + 1;
        }
        assert(verbatim_tail@.take(k as int) =~= verbatim_tail@);
        let mut j: usize = 0;
        while j < calls.len()
            invariant
                j <= calls@.len(),
                forall|i: int| 0 <= i < j ==> (#[trigger] calls@[i]).1,
                pairing(verbatim_tail@) == Ok::<Seq<(EffectId, bool)>, LayoutError>(calls@),
            decreases calls@.len() - j,
        {
            if !calls[j].1 {
                assert(!calls@[j as int].1);
                assert(pairing(verbatim_tail@) is Ok);
                assert(pairing(verbatim_tail@)->Ok_0 == calls@);
                assert(exists|i: int| 0 <= i < calls@.len() && !(#[trigger] calls@[i]).1);
                return Err(LayoutError::UnmatchedToolCall);
            }
            j = j + 1;
        }
        Ok(
            WindowLayout {
                system,
                user_info,
                rules_reminder,
                last_user_query,
                verbatim_tail,
                summary,
                reminders,
            },
        )
    }

    /// The fixed region order of the recipe (for emitters that label
    /// segments for the serving layer).
    pub fn region_order() -> (r: [Region; 7])
        ensures
            r@ == seq![
                Region::System,
                Region::UserInfo,
                Region::RulesReminder,
                Region::LastUserQuery,
                Region::VerbatimTail,
                Region::Summary,
                Region::Reminders,
            ],
    {
        let r = [
            Region::System,
            Region::UserInfo,
            Region::RulesReminder,
            Region::LastUserQuery,
            Region::VerbatimTail,
            Region::Summary,
            Region::Reminders,
        ];
        assert(r@ =~= seq![
            Region::System,
            Region::UserInfo,
            Region::RulesReminder,
            Region::LastUserQuery,
            Region::VerbatimTail,
            Region::Summary,
            Region::Reminders,
        ]);
        r
    }
}

} // verus!
